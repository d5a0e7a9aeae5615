//! The table of stack effects: what each instruction takes from the operand
//! stack and what it leaves there.

use vstd::prelude::*;
use crate::error::AnalysisError;
use crate::function::BytecodeFunction;
use crate::instr::Instr;
use crate::module::Module;
use crate::val::WasmType;

verus! {

/// The stack effect of one instruction: the types it takes, the last of
/// them from the top of the stack, and the types it pushes, in push order.
#[derive(Clone, Debug)]
pub struct OpInfo {
    pub input: Vec<WasmType>,
    pub output: Vec<WasmType>,
}

/// The value of an `OpInfo`.
pub struct Effect {
    pub input: Seq<WasmType>,
    pub output: Seq<WasmType>,
}

impl View for OpInfo {
    type V = Effect;

    open spec fn view(&self) -> Effect {
        Effect { input: self.input@, output: self.output@ }
    }
}

/// An effect from its two lists.
pub open spec fn effect(input: Seq<WasmType>, output: Seq<WasmType>) -> Option<Effect> {
    Some(Effect { input, output })
}

/// The indices that the instruction carries name things that exist: a
/// function and its signature, a signature, a local, a global.
pub open spec fn instr_valid(instr: Instr, module: Module, locals: Seq<WasmType>) -> bool {
    match instr {
        Instr::Call { function_index } => function_index < module.funcs@.len()
            && module.funcs@[function_index as int].fidx < module.types@.len(),
        Instr::CallIndirect { type_index } => type_index < module.types@.len(),
        Instr::LocalGet { local_index } => local_index < locals.len(),
        Instr::GlobalGet { global_index } => global_index < module.globals@.len(),
        _ => true,
    }
}

/// The table of stack effects. `None` for an instruction that has no entry.
///
/// Blocks and branches are entered without moving operands; a conditional
/// branch and a branch table take their selector only.
pub open spec fn effect_of(instr: Instr, module: Module, locals: Seq<WasmType>) -> Option<Effect> {
    match instr {
        Instr::Unreachable
        | Instr::Nop
        | Instr::Block
        | Instr::Loop
        | Instr::If
        | Instr::Else
        | Instr::End
        | Instr::Br
        | Instr::Return => effect(seq![], seq![]),
        Instr::BrIf | Instr::BrTable => effect(seq![WasmType::I32], seq![]),
        Instr::Call { function_index } => {
            let sig = module.spec_type_by_func(function_index as int);
            effect(sig.params@, sig.results@)
        },
        Instr::CallIndirect { type_index } => {
            let sig = module.types@[type_index as int];
            effect(sig.params@.push(WasmType::I32), sig.results@)
        },
        Instr::Drop | Instr::LocalSet | Instr::GlobalSet => effect(seq![WasmType::Any], seq![]),
        Instr::Select | Instr::TypedSelect => effect(
            seq![WasmType::Any, WasmType::Any, WasmType::I32],
            seq![WasmType::Any],
        ),
        Instr::LocalGet { local_index } => effect(seq![], seq![locals[local_index as int]]),
        Instr::LocalTee => effect(seq![WasmType::Any], seq![WasmType::Any]),
        Instr::GlobalGet { global_index } => effect(
            seq![],
            seq![module.globals@[global_index as int]],
        ),
        Instr::TableSet => effect(seq![WasmType::I32, WasmType::Any], seq![]),
        Instr::I32Load
        | Instr::I32Load8S
        | Instr::I32Load8U
        | Instr::I32Load16S
        | Instr::I32Load16U
        | Instr::MemoryGrow
        | Instr::I32Eqz
        | Instr::I32Clz
        | Instr::I32Ctz
        | Instr::I32Popcnt
        | Instr::I32Extend8S
        | Instr::I32Extend16S => effect(seq![WasmType::I32], seq![WasmType::I32]),
        Instr::F32Load
        | Instr::F32ConvertI32S
        | Instr::F32ConvertI32U
        | Instr::F32ReinterpretI32 => effect(seq![WasmType::I32], seq![WasmType::F32]),
        Instr::I64Load
        | Instr::I64Load8S
        | Instr::I64Load8U
        | Instr::I64Load16S
        | Instr::I64Load16U
        | Instr::I64Load32S
        | Instr::I64Load32U
        | Instr::I64ExtendI32S
        | Instr::I64ExtendI32U => effect(seq![WasmType::I32], seq![WasmType::I64]),
        Instr::F64Load | Instr::F64ConvertI32S | Instr::F64ConvertI32U => effect(
            seq![WasmType::I32],
            seq![WasmType::F64],
        ),
        Instr::I32Store
        | Instr::I64Store
        | Instr::F32Store
        | Instr::F64Store
        | Instr::I32Store8
        | Instr::I32Store16
        | Instr::I64Store8
        | Instr::I64Store16
        | Instr::I64Store32 => effect(seq![WasmType::Any, WasmType::Any], seq![]),
        Instr::MemorySize | Instr::I32Const { .. } => effect(seq![], seq![WasmType::I32]),
        Instr::I64Const { .. } => effect(seq![], seq![WasmType::I64]),
        Instr::F32Const { .. } => effect(seq![], seq![WasmType::F32]),
        Instr::F64Const { .. } => effect(seq![], seq![WasmType::F64]),
        Instr::I32Eq
        | Instr::I32Ne
        | Instr::I32LtS
        | Instr::I32LtU
        | Instr::I32GtS
        | Instr::I32GtU
        | Instr::I32LeS
        | Instr::I32LeU
        | Instr::I32GeS
        | Instr::I32GeU
        | Instr::I32Add
        | Instr::I32Sub
        | Instr::I32Mul
        | Instr::I32DivS
        | Instr::I32DivU
        | Instr::I32RemS
        | Instr::I32RemU
        | Instr::I32And
        | Instr::I32Or
        | Instr::I32Xor
        | Instr::I32Shl
        | Instr::I32ShrS
        | Instr::I32ShrU
        | Instr::I32Rotl
        | Instr::I32Rotr => effect(seq![WasmType::I32, WasmType::I32], seq![WasmType::I32]),
        Instr::I64Eqz | Instr::I32WrapI64 => effect(seq![WasmType::I64], seq![WasmType::I32]),
        Instr::I64Eq
        | Instr::I64Ne
        | Instr::I64LtS
        | Instr::I64LtU
        | Instr::I64GtS
        | Instr::I64GtU
        | Instr::I64LeS
        | Instr::I64LeU
        | Instr::I64GeS
        | Instr::I64GeU => effect(seq![WasmType::I64, WasmType::I64], seq![WasmType::I32]),
        Instr::F32Eq
        | Instr::F32Ne
        | Instr::F32Lt
        | Instr::F32Gt
        | Instr::F32Le
        | Instr::F32Ge => effect(seq![WasmType::F32, WasmType::F32], seq![WasmType::I32]),
        Instr::F64Eq
        | Instr::F64Ne
        | Instr::F64Lt
        | Instr::F64Gt
        | Instr::F64Le
        | Instr::F64Ge => effect(seq![WasmType::F64, WasmType::F64], seq![WasmType::I32]),
        Instr::I64Clz
        | Instr::I64Ctz
        | Instr::I64Popcnt
        | Instr::I64Extend8S
        | Instr::I64Extend16S
        | Instr::I64Extend32S => effect(seq![WasmType::I64], seq![WasmType::I64]),
        Instr::I64Add
        | Instr::I64Sub
        | Instr::I64Mul
        | Instr::I64DivS
        | Instr::I64DivU
        | Instr::I64RemS
        | Instr::I64RemU
        | Instr::I64And
        | Instr::I64Or
        | Instr::I64Xor
        | Instr::I64Shl
        | Instr::I64ShrS
        | Instr::I64ShrU
        | Instr::I64Rotl
        | Instr::I64Rotr => effect(seq![WasmType::I64, WasmType::I64], seq![WasmType::I64]),
        Instr::F32Abs
        | Instr::F32Neg
        | Instr::F32Ceil
        | Instr::F32Floor
        | Instr::F32Trunc
        | Instr::F32Nearest
        | Instr::F32Sqrt => effect(seq![WasmType::F32], seq![WasmType::F32]),
        Instr::F32Add
        | Instr::F32Sub
        | Instr::F32Mul
        | Instr::F32Div
        | Instr::F32Min
        | Instr::F32Max
        | Instr::F32Copysign => effect(seq![WasmType::F32, WasmType::F32], seq![WasmType::F32]),
        Instr::F64Abs
        | Instr::F64Neg
        | Instr::F64Ceil
        | Instr::F64Floor
        | Instr::F64Trunc
        | Instr::F64Nearest
        | Instr::F64Sqrt => effect(seq![WasmType::F64], seq![WasmType::F64]),
        Instr::F64Add
        | Instr::F64Sub
        | Instr::F64Mul
        | Instr::F64Div
        | Instr::F64Min
        | Instr::F64Max
        | Instr::F64Copysign => effect(seq![WasmType::F64, WasmType::F64], seq![WasmType::F64]),
        Instr::I32TruncF32S | Instr::I32TruncF32U | Instr::I32ReinterpretF32 => effect(
            seq![WasmType::F32],
            seq![WasmType::I32],
        ),
        Instr::I32TruncF64S | Instr::I32TruncF64U => effect(
            seq![WasmType::F64],
            seq![WasmType::I32],
        ),
        Instr::I64TruncF32S | Instr::I64TruncF32U => effect(
            seq![WasmType::F32],
            seq![WasmType::I64],
        ),
        Instr::I64TruncF64S | Instr::I64TruncF64U | Instr::I64ReinterpretF64 => effect(
            seq![WasmType::F64],
            seq![WasmType::I64],
        ),
        Instr::F32ConvertI64S | Instr::F32ConvertI64U => effect(
            seq![WasmType::I64],
            seq![WasmType::F32],
        ),
        Instr::F64ConvertI64S | Instr::F64ConvertI64U | Instr::F64ReinterpretI64 => effect(
            seq![WasmType::I64],
            seq![WasmType::F64],
        ),
        Instr::F32DemoteF64 => effect(seq![WasmType::F64], seq![WasmType::F32]),
        Instr::F64PromoteF32 => effect(seq![WasmType::F32], seq![WasmType::F64]),
        Instr::MemoryCopy | Instr::MemoryFill => effect(
            seq![WasmType::I32, WasmType::I32, WasmType::I32],
            seq![],
        ),
        Instr::TableGet | Instr::Unsupported { .. } => None,
    }
}

/// A copy of a list of types.
pub(crate) fn copy_types(types: &Vec<WasmType>) -> (out: Vec<WasmType>)
    ensures
        out@ == types@,
{
    let mut out: Vec<WasmType> = Vec::new();
    let mut i: usize = 0;
    while i < types.len()
        invariant
            i <= types@.len(),
            out@ == types@.take(i as int),
        decreases types@.len() - i,
    {
        out.push(types[i]);
        i += 1;
        assert(types@.take(i as int) == types@.take(i - 1).push(types@[i - 1]));
    }
    assert(types@.take(types@.len() as int) == types@);
    out
}

fn info(input: Vec<WasmType>, output: Vec<WasmType>) -> (r: Result<OpInfo, AnalysisError>)
    ensures
        r == Ok::<OpInfo, AnalysisError>(OpInfo { input, output }),
{
    Ok(OpInfo { input, output })
}

impl<'a> BytecodeFunction<'a> {
    /// The stack effect of `op` in this function, from the table.
    ///
    /// An instruction without an entry gives `UnsupportedOpcode` with the
    /// instruction; no effect is ever made up for it.
    pub fn opinfo(&self, op: &Instr) -> (r: Result<OpInfo, AnalysisError>)
        requires
            instr_valid(*op, *self.module, self.locals@),
        ensures
            match r {
                Ok(info) => effect_of(*op, *self.module, self.locals@) == Some(info@),
                Err(e) => effect_of(*op, *self.module, self.locals@) is None
                    && e == AnalysisError::UnsupportedOpcode(*op),
            },
    {
        let r = match op {
            Instr::Unreachable
            | Instr::Nop
            | Instr::Block
            | Instr::Loop
            | Instr::If
            | Instr::Else
            | Instr::End
            | Instr::Br
            | Instr::Return => info(vec![], vec![]),
            Instr::BrIf | Instr::BrTable => info(vec![WasmType::I32], vec![]),
            Instr::Call { function_index } => {
                let f = self.module.get_type_by_func(*function_index);
                info(copy_types(&f.params), copy_types(&f.results))
            },
            Instr::CallIndirect { type_index } => {
                let f = self.module.get_type_by_type(*type_index);
                let mut i = copy_types(&f.params);
                i.push(WasmType::I32);
                info(i, copy_types(&f.results))
            },
            Instr::Drop | Instr::LocalSet | Instr::GlobalSet => info(vec![WasmType::Any], vec![]),
            Instr::Select | Instr::TypedSelect => info(
                vec![WasmType::Any, WasmType::Any, WasmType::I32],
                vec![WasmType::Any],
            ),
            Instr::LocalGet { local_index } => {
                let local_type = self.get_type_by_local(*local_index);
                info(vec![], vec![*local_type])
            },
            Instr::LocalTee => info(vec![WasmType::Any], vec![WasmType::Any]),
            Instr::GlobalGet { global_index } => {
                let global_type = self.module.get_type_by_global(*global_index);
                info(vec![], vec![*global_type])
            },
            Instr::TableSet => info(vec![WasmType::I32, WasmType::Any], vec![]),
            Instr::I32Load
            | Instr::I32Load8S
            | Instr::I32Load8U
            | Instr::I32Load16S
            | Instr::I32Load16U
            | Instr::MemoryGrow
            | Instr::I32Eqz
            | Instr::I32Clz
            | Instr::I32Ctz
            | Instr::I32Popcnt
            | Instr::I32Extend8S
            | Instr::I32Extend16S => info(vec![WasmType::I32], vec![WasmType::I32]),
            Instr::F32Load
            | Instr::F32ConvertI32S
            | Instr::F32ConvertI32U
            | Instr::F32ReinterpretI32 => info(vec![WasmType::I32], vec![WasmType::F32]),
            Instr::I64Load
            | Instr::I64Load8S
            | Instr::I64Load8U
            | Instr::I64Load16S
            | Instr::I64Load16U
            | Instr::I64Load32S
            | Instr::I64Load32U
            | Instr::I64ExtendI32S
            | Instr::I64ExtendI32U => info(vec![WasmType::I32], vec![WasmType::I64]),
            Instr::F64Load | Instr::F64ConvertI32S | Instr::F64ConvertI32U => info(
                vec![WasmType::I32],
                vec![WasmType::F64],
            ),
            Instr::I32Store
            | Instr::I64Store
            | Instr::F32Store
            | Instr::F64Store
            | Instr::I32Store8
            | Instr::I32Store16
            | Instr::I64Store8
            | Instr::I64Store16
            | Instr::I64Store32 => info(vec![WasmType::Any, WasmType::Any], vec![]),
            Instr::MemorySize | Instr::I32Const { .. } => info(vec![], vec![WasmType::I32]),
            Instr::I64Const { .. } => info(vec![], vec![WasmType::I64]),
            Instr::F32Const { .. } => info(vec![], vec![WasmType::F32]),
            Instr::F64Const { .. } => info(vec![], vec![WasmType::F64]),
            Instr::I32Eq
            | Instr::I32Ne
            | Instr::I32LtS
            | Instr::I32LtU
            | Instr::I32GtS
            | Instr::I32GtU
            | Instr::I32LeS
            | Instr::I32LeU
            | Instr::I32GeS
            | Instr::I32GeU
            | Instr::I32Add
            | Instr::I32Sub
            | Instr::I32Mul
            | Instr::I32DivS
            | Instr::I32DivU
            | Instr::I32RemS
            | Instr::I32RemU
            | Instr::I32And
            | Instr::I32Or
            | Instr::I32Xor
            | Instr::I32Shl
            | Instr::I32ShrS
            | Instr::I32ShrU
            | Instr::I32Rotl
            | Instr::I32Rotr => info(vec![WasmType::I32, WasmType::I32], vec![WasmType::I32]),
            Instr::I64Eqz | Instr::I32WrapI64 => info(vec![WasmType::I64], vec![WasmType::I32]),
            Instr::I64Eq
            | Instr::I64Ne
            | Instr::I64LtS
            | Instr::I64LtU
            | Instr::I64GtS
            | Instr::I64GtU
            | Instr::I64LeS
            | Instr::I64LeU
            | Instr::I64GeS
            | Instr::I64GeU => info(vec![WasmType::I64, WasmType::I64], vec![WasmType::I32]),
            Instr::F32Eq
            | Instr::F32Ne
            | Instr::F32Lt
            | Instr::F32Gt
            | Instr::F32Le
            | Instr::F32Ge => info(vec![WasmType::F32, WasmType::F32], vec![WasmType::I32]),
            Instr::F64Eq
            | Instr::F64Ne
            | Instr::F64Lt
            | Instr::F64Gt
            | Instr::F64Le
            | Instr::F64Ge => info(vec![WasmType::F64, WasmType::F64], vec![WasmType::I32]),
            Instr::I64Clz
            | Instr::I64Ctz
            | Instr::I64Popcnt
            | Instr::I64Extend8S
            | Instr::I64Extend16S
            | Instr::I64Extend32S => info(vec![WasmType::I64], vec![WasmType::I64]),
            Instr::I64Add
            | Instr::I64Sub
            | Instr::I64Mul
            | Instr::I64DivS
            | Instr::I64DivU
            | Instr::I64RemS
            | Instr::I64RemU
            | Instr::I64And
            | Instr::I64Or
            | Instr::I64Xor
            | Instr::I64Shl
            | Instr::I64ShrS
            | Instr::I64ShrU
            | Instr::I64Rotl
            | Instr::I64Rotr => info(vec![WasmType::I64, WasmType::I64], vec![WasmType::I64]),
            Instr::F32Abs
            | Instr::F32Neg
            | Instr::F32Ceil
            | Instr::F32Floor
            | Instr::F32Trunc
            | Instr::F32Nearest
            | Instr::F32Sqrt => info(vec![WasmType::F32], vec![WasmType::F32]),
            Instr::F32Add
            | Instr::F32Sub
            | Instr::F32Mul
            | Instr::F32Div
            | Instr::F32Min
            | Instr::F32Max
            | Instr::F32Copysign => info(vec![WasmType::F32, WasmType::F32], vec![WasmType::F32]),
            Instr::F64Abs
            | Instr::F64Neg
            | Instr::F64Ceil
            | Instr::F64Floor
            | Instr::F64Trunc
            | Instr::F64Nearest
            | Instr::F64Sqrt => info(vec![WasmType::F64], vec![WasmType::F64]),
            Instr::F64Add
            | Instr::F64Sub
            | Instr::F64Mul
            | Instr::F64Div
            | Instr::F64Min
            | Instr::F64Max
            | Instr::F64Copysign => info(vec![WasmType::F64, WasmType::F64], vec![WasmType::F64]),
            Instr::I32TruncF32S | Instr::I32TruncF32U | Instr::I32ReinterpretF32 => info(
                vec![WasmType::F32],
                vec![WasmType::I32],
            ),
            Instr::I32TruncF64S | Instr::I32TruncF64U => info(
                vec![WasmType::F64],
                vec![WasmType::I32],
            ),
            Instr::I64TruncF32S | Instr::I64TruncF32U => info(
                vec![WasmType::F32],
                vec![WasmType::I64],
            ),
            Instr::I64TruncF64S | Instr::I64TruncF64U | Instr::I64ReinterpretF64 => info(
                vec![WasmType::F64],
                vec![WasmType::I64],
            ),
            Instr::F32ConvertI64S | Instr::F32ConvertI64U => info(
                vec![WasmType::I64],
                vec![WasmType::F32],
            ),
            Instr::F64ConvertI64S | Instr::F64ConvertI64U | Instr::F64ReinterpretI64 => info(
                vec![WasmType::I64],
                vec![WasmType::F64],
            ),
            Instr::F32DemoteF64 => info(vec![WasmType::F64], vec![WasmType::F32]),
            Instr::F64PromoteF32 => info(vec![WasmType::F32], vec![WasmType::F64]),
            Instr::MemoryCopy | Instr::MemoryFill => info(
                vec![WasmType::I32, WasmType::I32, WasmType::I32],
                vec![],
            ),
            Instr::TableGet | Instr::Unsupported { .. } => Err(
                AnalysisError::UnsupportedOpcode(*op),
            ),
        };
        proof {
            if r is Ok {
                let e = effect_of(*op, *self.module, self.locals@).unwrap();
                assert(e.input =~= r->Ok_0.input@);
                assert(e.output =~= r->Ok_0.output@);
            }
        }
        r
    }
}

} // verus!
