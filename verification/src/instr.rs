//! The instructions of a function body, as far as the analysis reads them.

use vstd::prelude::*;

verus! {

/// One WebAssembly instruction.
///
/// An instruction carries an immediate only where the analysis reads it: the
/// index of a callee, signature, local or global, and the bits of a constant.
/// Every instruction that has no variant of its own is `Unsupported`, with
/// the leading byte of its encoding.
#[allow(inconsistent_fields)]
#[derive(Clone, Copy, Debug, PartialEq, Eq, Structural)]
pub enum Instr {
    Unreachable,
    Nop,
    Block,
    Loop,
    If,
    Else,
    End,
    Br,
    BrIf,
    BrTable,
    Return,
    Call { function_index: u32 },
    CallIndirect { type_index: u32 },
    Drop,
    Select,
    TypedSelect,
    LocalGet { local_index: u32 },
    LocalSet,
    LocalTee,
    GlobalGet { global_index: u32 },
    GlobalSet,
    TableGet,
    TableSet,
    I32Load,
    I64Load,
    F32Load,
    F64Load,
    I32Load8S,
    I32Load8U,
    I32Load16S,
    I32Load16U,
    I64Load8S,
    I64Load8U,
    I64Load16S,
    I64Load16U,
    I64Load32S,
    I64Load32U,
    I32Store,
    I64Store,
    F32Store,
    F64Store,
    I32Store8,
    I32Store16,
    I64Store8,
    I64Store16,
    I64Store32,
    MemorySize,
    MemoryGrow,
    I32Const { value: i32 },
    I64Const { value: i64 },
    F32Const { bits: u32 },
    F64Const { bits: u64 },
    I32Eqz,
    I32Eq,
    I32Ne,
    I32LtS,
    I32LtU,
    I32GtS,
    I32GtU,
    I32LeS,
    I32LeU,
    I32GeS,
    I32GeU,
    I64Eqz,
    I64Eq,
    I64Ne,
    I64LtS,
    I64LtU,
    I64GtS,
    I64GtU,
    I64LeS,
    I64LeU,
    I64GeS,
    I64GeU,
    F32Eq,
    F32Ne,
    F32Lt,
    F32Gt,
    F32Le,
    F32Ge,
    F64Eq,
    F64Ne,
    F64Lt,
    F64Gt,
    F64Le,
    F64Ge,
    I32Clz,
    I32Ctz,
    I32Popcnt,
    I32Add,
    I32Sub,
    I32Mul,
    I32DivS,
    I32DivU,
    I32RemS,
    I32RemU,
    I32And,
    I32Or,
    I32Xor,
    I32Shl,
    I32ShrS,
    I32ShrU,
    I32Rotl,
    I32Rotr,
    I64Clz,
    I64Ctz,
    I64Popcnt,
    I64Add,
    I64Sub,
    I64Mul,
    I64DivS,
    I64DivU,
    I64RemS,
    I64RemU,
    I64And,
    I64Or,
    I64Xor,
    I64Shl,
    I64ShrS,
    I64ShrU,
    I64Rotl,
    I64Rotr,
    F32Abs,
    F32Neg,
    F32Ceil,
    F32Floor,
    F32Trunc,
    F32Nearest,
    F32Sqrt,
    F32Add,
    F32Sub,
    F32Mul,
    F32Div,
    F32Min,
    F32Max,
    F32Copysign,
    F64Abs,
    F64Neg,
    F64Ceil,
    F64Floor,
    F64Trunc,
    F64Nearest,
    F64Sqrt,
    F64Add,
    F64Sub,
    F64Mul,
    F64Div,
    F64Min,
    F64Max,
    F64Copysign,
    I32WrapI64,
    I32TruncF32S,
    I32TruncF32U,
    I32TruncF64S,
    I32TruncF64U,
    I64ExtendI32S,
    I64ExtendI32U,
    I64TruncF32S,
    I64TruncF32U,
    I64TruncF64S,
    I64TruncF64U,
    F32ConvertI32S,
    F32ConvertI32U,
    F32ConvertI64S,
    F32ConvertI64U,
    F32DemoteF64,
    F64ConvertI32S,
    F64ConvertI32U,
    F64ConvertI64S,
    F64ConvertI64U,
    F64PromoteF32,
    I32ReinterpretF32,
    I64ReinterpretF64,
    F32ReinterpretI32,
    F64ReinterpretI64,
    I32Extend8S,
    I32Extend16S,
    I64Extend8S,
    I64Extend16S,
    I64Extend32S,
    MemoryCopy,
    MemoryFill,
    Unsupported { opcode: u8 },
}

impl Instr {
    /// Whether the instruction calls a function, directly or through a table.
    pub open spec fn spec_is_call(self) -> bool {
        self is Call || self is CallIndirect
    }

    /// Whether the instruction calls a function, directly or through a table.
    pub fn is_call(&self) -> (b: bool)
        ensures
            b == self.spec_is_call(),
    {
        match self {
            Instr::Call { .. } | Instr::CallIndirect { .. } => true,
            _ => false,
        }
    }

    /// Whether the instruction only pushes a constant.
    pub open spec fn is_const(self) -> bool {
        self is I32Const || self is I64Const || self is F32Const || self is F64Const
    }

    /// Whether the instruction is an arithmetic or bitwise operation that
    /// takes two operands of one numeric type and gives one of that type.
    pub open spec fn is_binary_arithmetic(self) -> bool {
        match self {
            Instr::I32Add
            | Instr::I32Sub
            | Instr::I32Mul
            | Instr::I32DivS
            | Instr::I32DivU
            | Instr::I32RemS
            | Instr::I32RemU
            | Instr::I32And
            | Instr::I32Or
            | Instr::I32Xor
            | Instr::I32Shl
            | Instr::I32ShrS
            | Instr::I32ShrU
            | Instr::I32Rotl
            | Instr::I32Rotr
            | Instr::I64Add
            | Instr::I64Sub
            | Instr::I64Mul
            | Instr::I64DivS
            | Instr::I64DivU
            | Instr::I64RemS
            | Instr::I64RemU
            | Instr::I64And
            | Instr::I64Or
            | Instr::I64Xor
            | Instr::I64Shl
            | Instr::I64ShrS
            | Instr::I64ShrU
            | Instr::I64Rotl
            | Instr::I64Rotr
            | Instr::F32Add
            | Instr::F32Sub
            | Instr::F32Mul
            | Instr::F32Div
            | Instr::F32Min
            | Instr::F32Max
            | Instr::F32Copysign
            | Instr::F64Add
            | Instr::F64Sub
            | Instr::F64Mul
            | Instr::F64Div
            | Instr::F64Min
            | Instr::F64Max
            | Instr::F64Copysign => true,
            _ => false,
        }
    }
}

/// What an instruction carries besides its opcode, as far as it is read:
/// an index, the bits of a constant, or which of the instructions behind
/// the prefix byte `0xfc` it is.
#[derive(Clone, Copy, Debug, PartialEq, Eq, Structural)]
pub enum Immediate {
    Absent,
    Index(u32),
    I32(i32),
    I64(i64),
    F32(u32),
    F64(u64),
    MemoryCopy,
    MemoryFill,
}

impl Instr {
    /// The first byte of the encoding of the instruction.
    pub open spec fn spec_opcode(self) -> u8 {
        match self {
            Instr::Unreachable => 0x00,
            Instr::Nop => 0x01,
            Instr::Block => 0x02,
            Instr::Loop => 0x03,
            Instr::If => 0x04,
            Instr::Else => 0x05,
            Instr::End => 0x0b,
            Instr::Br => 0x0c,
            Instr::BrIf => 0x0d,
            Instr::BrTable => 0x0e,
            Instr::Return => 0x0f,
            Instr::Call { .. } => 0x10,
            Instr::CallIndirect { .. } => 0x11,
            Instr::Drop => 0x1a,
            Instr::Select => 0x1b,
            Instr::TypedSelect => 0x1c,
            Instr::LocalGet { .. } => 0x20,
            Instr::LocalSet => 0x21,
            Instr::LocalTee => 0x22,
            Instr::GlobalGet { .. } => 0x23,
            Instr::GlobalSet => 0x24,
            Instr::TableGet => 0x25,
            Instr::TableSet => 0x26,
            Instr::I32Load => 0x28,
            Instr::I64Load => 0x29,
            Instr::F32Load => 0x2a,
            Instr::F64Load => 0x2b,
            Instr::I32Load8S => 0x2c,
            Instr::I32Load8U => 0x2d,
            Instr::I32Load16S => 0x2e,
            Instr::I32Load16U => 0x2f,
            Instr::I64Load8S => 0x30,
            Instr::I64Load8U => 0x31,
            Instr::I64Load16S => 0x32,
            Instr::I64Load16U => 0x33,
            Instr::I64Load32S => 0x34,
            Instr::I64Load32U => 0x35,
            Instr::I32Store => 0x36,
            Instr::I64Store => 0x37,
            Instr::F32Store => 0x38,
            Instr::F64Store => 0x39,
            Instr::I32Store8 => 0x3a,
            Instr::I32Store16 => 0x3b,
            Instr::I64Store8 => 0x3c,
            Instr::I64Store16 => 0x3d,
            Instr::I64Store32 => 0x3e,
            Instr::MemorySize => 0x3f,
            Instr::MemoryGrow => 0x40,
            Instr::I32Const { .. } => 0x41,
            Instr::I64Const { .. } => 0x42,
            Instr::F32Const { .. } => 0x43,
            Instr::F64Const { .. } => 0x44,
            Instr::I32Eqz => 0x45,
            Instr::I32Eq => 0x46,
            Instr::I32Ne => 0x47,
            Instr::I32LtS => 0x48,
            Instr::I32LtU => 0x49,
            Instr::I32GtS => 0x4a,
            Instr::I32GtU => 0x4b,
            Instr::I32LeS => 0x4c,
            Instr::I32LeU => 0x4d,
            Instr::I32GeS => 0x4e,
            Instr::I32GeU => 0x4f,
            Instr::I64Eqz => 0x50,
            Instr::I64Eq => 0x51,
            Instr::I64Ne => 0x52,
            Instr::I64LtS => 0x53,
            Instr::I64LtU => 0x54,
            Instr::I64GtS => 0x55,
            Instr::I64GtU => 0x56,
            Instr::I64LeS => 0x57,
            Instr::I64LeU => 0x58,
            Instr::I64GeS => 0x59,
            Instr::I64GeU => 0x5a,
            Instr::F32Eq => 0x5b,
            Instr::F32Ne => 0x5c,
            Instr::F32Lt => 0x5d,
            Instr::F32Gt => 0x5e,
            Instr::F32Le => 0x5f,
            Instr::F32Ge => 0x60,
            Instr::F64Eq => 0x61,
            Instr::F64Ne => 0x62,
            Instr::F64Lt => 0x63,
            Instr::F64Gt => 0x64,
            Instr::F64Le => 0x65,
            Instr::F64Ge => 0x66,
            Instr::I32Clz => 0x67,
            Instr::I32Ctz => 0x68,
            Instr::I32Popcnt => 0x69,
            Instr::I32Add => 0x6a,
            Instr::I32Sub => 0x6b,
            Instr::I32Mul => 0x6c,
            Instr::I32DivS => 0x6d,
            Instr::I32DivU => 0x6e,
            Instr::I32RemS => 0x6f,
            Instr::I32RemU => 0x70,
            Instr::I32And => 0x71,
            Instr::I32Or => 0x72,
            Instr::I32Xor => 0x73,
            Instr::I32Shl => 0x74,
            Instr::I32ShrS => 0x75,
            Instr::I32ShrU => 0x76,
            Instr::I32Rotl => 0x77,
            Instr::I32Rotr => 0x78,
            Instr::I64Clz => 0x79,
            Instr::I64Ctz => 0x7a,
            Instr::I64Popcnt => 0x7b,
            Instr::I64Add => 0x7c,
            Instr::I64Sub => 0x7d,
            Instr::I64Mul => 0x7e,
            Instr::I64DivS => 0x7f,
            Instr::I64DivU => 0x80,
            Instr::I64RemS => 0x81,
            Instr::I64RemU => 0x82,
            Instr::I64And => 0x83,
            Instr::I64Or => 0x84,
            Instr::I64Xor => 0x85,
            Instr::I64Shl => 0x86,
            Instr::I64ShrS => 0x87,
            Instr::I64ShrU => 0x88,
            Instr::I64Rotl => 0x89,
            Instr::I64Rotr => 0x8a,
            Instr::F32Abs => 0x8b,
            Instr::F32Neg => 0x8c,
            Instr::F32Ceil => 0x8d,
            Instr::F32Floor => 0x8e,
            Instr::F32Trunc => 0x8f,
            Instr::F32Nearest => 0x90,
            Instr::F32Sqrt => 0x91,
            Instr::F32Add => 0x92,
            Instr::F32Sub => 0x93,
            Instr::F32Mul => 0x94,
            Instr::F32Div => 0x95,
            Instr::F32Min => 0x96,
            Instr::F32Max => 0x97,
            Instr::F32Copysign => 0x98,
            Instr::F64Abs => 0x99,
            Instr::F64Neg => 0x9a,
            Instr::F64Ceil => 0x9b,
            Instr::F64Floor => 0x9c,
            Instr::F64Trunc => 0x9d,
            Instr::F64Nearest => 0x9e,
            Instr::F64Sqrt => 0x9f,
            Instr::F64Add => 0xa0,
            Instr::F64Sub => 0xa1,
            Instr::F64Mul => 0xa2,
            Instr::F64Div => 0xa3,
            Instr::F64Min => 0xa4,
            Instr::F64Max => 0xa5,
            Instr::F64Copysign => 0xa6,
            Instr::I32WrapI64 => 0xa7,
            Instr::I32TruncF32S => 0xa8,
            Instr::I32TruncF32U => 0xa9,
            Instr::I32TruncF64S => 0xaa,
            Instr::I32TruncF64U => 0xab,
            Instr::I64ExtendI32S => 0xac,
            Instr::I64ExtendI32U => 0xad,
            Instr::I64TruncF32S => 0xae,
            Instr::I64TruncF32U => 0xaf,
            Instr::I64TruncF64S => 0xb0,
            Instr::I64TruncF64U => 0xb1,
            Instr::F32ConvertI32S => 0xb2,
            Instr::F32ConvertI32U => 0xb3,
            Instr::F32ConvertI64S => 0xb4,
            Instr::F32ConvertI64U => 0xb5,
            Instr::F32DemoteF64 => 0xb6,
            Instr::F64ConvertI32S => 0xb7,
            Instr::F64ConvertI32U => 0xb8,
            Instr::F64ConvertI64S => 0xb9,
            Instr::F64ConvertI64U => 0xba,
            Instr::F64PromoteF32 => 0xbb,
            Instr::I32ReinterpretF32 => 0xbc,
            Instr::I64ReinterpretF64 => 0xbd,
            Instr::F32ReinterpretI32 => 0xbe,
            Instr::F64ReinterpretI64 => 0xbf,
            Instr::I32Extend8S => 0xc0,
            Instr::I32Extend16S => 0xc1,
            Instr::I64Extend8S => 0xc2,
            Instr::I64Extend16S => 0xc3,
            Instr::I64Extend32S => 0xc4,
            Instr::MemoryCopy => 0xfc,
            Instr::MemoryFill => 0xfc,
            Instr::Unsupported { opcode } => opcode,
        }
    }

    /// What the instruction carries.
    pub open spec fn spec_immediate(self) -> Immediate {
        match self {
            Instr::Call { function_index } => Immediate::Index(function_index),
            Instr::CallIndirect { type_index } => Immediate::Index(type_index),
            Instr::LocalGet { local_index } => Immediate::Index(local_index),
            Instr::GlobalGet { global_index } => Immediate::Index(global_index),
            Instr::I32Const { value } => Immediate::I32(value),
            Instr::I64Const { value } => Immediate::I64(value),
            Instr::F32Const { bits } => Immediate::F32(bits),
            Instr::F64Const { bits } => Immediate::F64(bits),
            Instr::MemoryCopy => Immediate::MemoryCopy,
            Instr::MemoryFill => Immediate::MemoryFill,
            _ => Immediate::Absent,
        }
    }

    /// Whether an instruction with a variant of its own starts with the byte
    /// `opcode` and carries nothing that is read.
    pub open spec fn plain_opcode(opcode: u8) -> bool {
        ||| opcode <= 0x05
        ||| 0x0b <= opcode <= 0x0f
        ||| 0x1a <= opcode <= 0x1c
        ||| opcode == 0x21
        ||| opcode == 0x22
        ||| 0x24 <= opcode <= 0x26
        ||| 0x28 <= opcode <= 0x40
        ||| 0x45 <= opcode <= 0xc4
    }

    /// Whether an instruction with a variant of its own starts with the byte
    /// `opcode` and carries `immediate`.
    pub open spec fn encoding_listed(opcode: u8, immediate: Immediate) -> bool {
        match immediate {
            Immediate::Absent => Instr::plain_opcode(opcode),
            Immediate::Index(_) => opcode == 0x10 || opcode == 0x11 || opcode == 0x20 || opcode
                == 0x23,
            Immediate::I32(_) => opcode == 0x41,
            Immediate::I64(_) => opcode == 0x42,
            Immediate::F32(_) => opcode == 0x43,
            Immediate::F64(_) => opcode == 0x44,
            Immediate::MemoryCopy | Immediate::MemoryFill => opcode == 0xfc,
        }
    }

    /// Every instruction with a variant of its own has a listed encoding.
    pub proof fn named_listed_law(self)
        requires
            !(self is Unsupported),
        ensures
            Instr::encoding_listed(self.spec_opcode(), self.spec_immediate()),
    {
    }

    /// Two instructions with the same encoding are the same instruction.
    pub proof fn encoding_unique_law(self, other: Instr)
        requires
            !(self is Unsupported),
            !(other is Unsupported),
            self.spec_opcode() == other.spec_opcode(),
            self.spec_immediate() == other.spec_immediate(),
        ensures
            self == other,
    {
    }

    /// The instruction has a variant of its own, starts with the byte
    /// `opcode` and carries `immediate`.
    pub open spec fn has_encoding(self, opcode: u8, immediate: Immediate) -> bool {
        !(self is Unsupported) && self.spec_opcode() == opcode && self.spec_immediate()
            == immediate
    }

    /// The instruction that starts with the byte `opcode` and carries
    /// `immediate`: the instruction with a variant of its own that has this
    /// encoding, or `Unsupported` with the opcode where there is none.
    pub open spec fn decoded(opcode: u8, immediate: Immediate) -> Instr {
        if exists|instr: Instr| #[trigger] instr.has_encoding(opcode, immediate) {
            choose|instr: Instr| #[trigger] instr.has_encoding(opcode, immediate)
        } else {
            Instr::Unsupported { opcode }
        }
    }

    /// An instruction with the given opcode, which carries the given
    /// immediate unless it is `Unsupported`, and which is `Unsupported` only
    /// where the encoding is not listed, is the instruction that is decoded
    /// from the two.
    pub proof fn decoded_law(self, opcode: u8, immediate: Immediate)
        requires
            self.spec_opcode() == opcode,
            !(self is Unsupported) ==> self.spec_immediate() == immediate,
            self is Unsupported <==> !Instr::encoding_listed(opcode, immediate),
        ensures
            self == Instr::decoded(opcode, immediate),
    {
        if self is Unsupported {
            assert forall|instr: Instr| !#[trigger] instr.has_encoding(opcode, immediate) by {
                if instr.has_encoding(opcode, immediate) {
                    instr.named_listed_law();
                }
            }
        } else {
            assert(self.has_encoding(opcode, immediate));
            let other = choose|instr: Instr| #[trigger] instr.has_encoding(opcode, immediate);
            self.encoding_unique_law(other);
        }
    }

    /// What is decoded from an opcode starts with that opcode, and carries
    /// the immediate it was decoded from unless it is `Unsupported`.
    pub proof fn decoded_opcode_law(opcode: u8, immediate: Immediate)
        ensures
            Instr::decoded(opcode, immediate).spec_opcode() == opcode,
            !(Instr::decoded(opcode, immediate) is Unsupported) ==> Instr::decoded(
                opcode,
                immediate,
            ).spec_immediate() == immediate,
    {
    }

    /// The instruction without an immediate that starts with `opcode`, where
    /// that is a control, parametric, variable or table instruction.
    fn control(opcode: u8) -> (instr: Instr)
        requires
            0x00 <= opcode <= 0x26,
        ensures
            instr.spec_opcode() == opcode,
            !(instr is Unsupported) ==> instr.spec_immediate() == Immediate::Absent,
            instr is Unsupported <==> !Instr::plain_opcode(opcode),
    {
        match opcode {
            0x00 => Instr::Unreachable,
            0x01 => Instr::Nop,
            0x02 => Instr::Block,
            0x03 => Instr::Loop,
            0x04 => Instr::If,
            0x05 => Instr::Else,
            0x0b => Instr::End,
            0x0c => Instr::Br,
            0x0d => Instr::BrIf,
            0x0e => Instr::BrTable,
            0x0f => Instr::Return,
            0x1a => Instr::Drop,
            0x1b => Instr::Select,
            0x1c => Instr::TypedSelect,
            0x21 => Instr::LocalSet,
            0x22 => Instr::LocalTee,
            0x24 => Instr::GlobalSet,
            0x25 => Instr::TableGet,
            0x26 => Instr::TableSet,
            _ => Instr::Unsupported { opcode },
        }
    }

    /// The instruction without an immediate that starts with `opcode`, where
    /// that is a memory instruction.
    fn memory(opcode: u8) -> (instr: Instr)
        requires
            0x28 <= opcode <= 0x40,
        ensures
            instr.spec_opcode() == opcode,
            !(instr is Unsupported) ==> instr.spec_immediate() == Immediate::Absent,
            instr is Unsupported <==> !Instr::plain_opcode(opcode),
    {
        match opcode {
            0x28 => Instr::I32Load,
            0x29 => Instr::I64Load,
            0x2a => Instr::F32Load,
            0x2b => Instr::F64Load,
            0x2c => Instr::I32Load8S,
            0x2d => Instr::I32Load8U,
            0x2e => Instr::I32Load16S,
            0x2f => Instr::I32Load16U,
            0x30 => Instr::I64Load8S,
            0x31 => Instr::I64Load8U,
            0x32 => Instr::I64Load16S,
            0x33 => Instr::I64Load16U,
            0x34 => Instr::I64Load32S,
            0x35 => Instr::I64Load32U,
            0x36 => Instr::I32Store,
            0x37 => Instr::I64Store,
            0x38 => Instr::F32Store,
            0x39 => Instr::F64Store,
            0x3a => Instr::I32Store8,
            0x3b => Instr::I32Store16,
            0x3c => Instr::I64Store8,
            0x3d => Instr::I64Store16,
            0x3e => Instr::I64Store32,
            0x3f => Instr::MemorySize,
            0x40 => Instr::MemoryGrow,
            _ => Instr::Unsupported { opcode },
        }
    }

    /// The instruction without an immediate that starts with `opcode`, where
    /// that is a comparison.
    fn compare(opcode: u8) -> (instr: Instr)
        requires
            0x45 <= opcode <= 0x66,
        ensures
            instr.spec_opcode() == opcode,
            !(instr is Unsupported) ==> instr.spec_immediate() == Immediate::Absent,
            instr is Unsupported <==> !Instr::plain_opcode(opcode),
    {
        match opcode {
            0x45 => Instr::I32Eqz,
            0x46 => Instr::I32Eq,
            0x47 => Instr::I32Ne,
            0x48 => Instr::I32LtS,
            0x49 => Instr::I32LtU,
            0x4a => Instr::I32GtS,
            0x4b => Instr::I32GtU,
            0x4c => Instr::I32LeS,
            0x4d => Instr::I32LeU,
            0x4e => Instr::I32GeS,
            0x4f => Instr::I32GeU,
            0x50 => Instr::I64Eqz,
            0x51 => Instr::I64Eq,
            0x52 => Instr::I64Ne,
            0x53 => Instr::I64LtS,
            0x54 => Instr::I64LtU,
            0x55 => Instr::I64GtS,
            0x56 => Instr::I64GtU,
            0x57 => Instr::I64LeS,
            0x58 => Instr::I64LeU,
            0x59 => Instr::I64GeS,
            0x5a => Instr::I64GeU,
            0x5b => Instr::F32Eq,
            0x5c => Instr::F32Ne,
            0x5d => Instr::F32Lt,
            0x5e => Instr::F32Gt,
            0x5f => Instr::F32Le,
            0x60 => Instr::F32Ge,
            0x61 => Instr::F64Eq,
            0x62 => Instr::F64Ne,
            0x63 => Instr::F64Lt,
            0x64 => Instr::F64Gt,
            0x65 => Instr::F64Le,
            0x66 => Instr::F64Ge,
            _ => Instr::Unsupported { opcode },
        }
    }

    /// The instruction without an immediate that starts with `opcode`, where
    /// that is an integer operation.
    fn integer(opcode: u8) -> (instr: Instr)
        requires
            0x67 <= opcode <= 0x8a,
        ensures
            instr.spec_opcode() == opcode,
            !(instr is Unsupported) ==> instr.spec_immediate() == Immediate::Absent,
            instr is Unsupported <==> !Instr::plain_opcode(opcode),
    {
        match opcode {
            0x67 => Instr::I32Clz,
            0x68 => Instr::I32Ctz,
            0x69 => Instr::I32Popcnt,
            0x6a => Instr::I32Add,
            0x6b => Instr::I32Sub,
            0x6c => Instr::I32Mul,
            0x6d => Instr::I32DivS,
            0x6e => Instr::I32DivU,
            0x6f => Instr::I32RemS,
            0x70 => Instr::I32RemU,
            0x71 => Instr::I32And,
            0x72 => Instr::I32Or,
            0x73 => Instr::I32Xor,
            0x74 => Instr::I32Shl,
            0x75 => Instr::I32ShrS,
            0x76 => Instr::I32ShrU,
            0x77 => Instr::I32Rotl,
            0x78 => Instr::I32Rotr,
            0x79 => Instr::I64Clz,
            0x7a => Instr::I64Ctz,
            0x7b => Instr::I64Popcnt,
            0x7c => Instr::I64Add,
            0x7d => Instr::I64Sub,
            0x7e => Instr::I64Mul,
            0x7f => Instr::I64DivS,
            0x80 => Instr::I64DivU,
            0x81 => Instr::I64RemS,
            0x82 => Instr::I64RemU,
            0x83 => Instr::I64And,
            0x84 => Instr::I64Or,
            0x85 => Instr::I64Xor,
            0x86 => Instr::I64Shl,
            0x87 => Instr::I64ShrS,
            0x88 => Instr::I64ShrU,
            0x89 => Instr::I64Rotl,
            0x8a => Instr::I64Rotr,
            _ => Instr::Unsupported { opcode },
        }
    }

    /// The instruction without an immediate that starts with `opcode`, where
    /// that is a float operation.
    fn float(opcode: u8) -> (instr: Instr)
        requires
            0x8b <= opcode <= 0xa6,
        ensures
            instr.spec_opcode() == opcode,
            !(instr is Unsupported) ==> instr.spec_immediate() == Immediate::Absent,
            instr is Unsupported <==> !Instr::plain_opcode(opcode),
    {
        match opcode {
            0x8b => Instr::F32Abs,
            0x8c => Instr::F32Neg,
            0x8d => Instr::F32Ceil,
            0x8e => Instr::F32Floor,
            0x8f => Instr::F32Trunc,
            0x90 => Instr::F32Nearest,
            0x91 => Instr::F32Sqrt,
            0x92 => Instr::F32Add,
            0x93 => Instr::F32Sub,
            0x94 => Instr::F32Mul,
            0x95 => Instr::F32Div,
            0x96 => Instr::F32Min,
            0x97 => Instr::F32Max,
            0x98 => Instr::F32Copysign,
            0x99 => Instr::F64Abs,
            0x9a => Instr::F64Neg,
            0x9b => Instr::F64Ceil,
            0x9c => Instr::F64Floor,
            0x9d => Instr::F64Trunc,
            0x9e => Instr::F64Nearest,
            0x9f => Instr::F64Sqrt,
            0xa0 => Instr::F64Add,
            0xa1 => Instr::F64Sub,
            0xa2 => Instr::F64Mul,
            0xa3 => Instr::F64Div,
            0xa4 => Instr::F64Min,
            0xa5 => Instr::F64Max,
            0xa6 => Instr::F64Copysign,
            _ => Instr::Unsupported { opcode },
        }
    }

    /// The instruction without an immediate that starts with `opcode`, where
    /// that is a conversion.
    fn convert(opcode: u8) -> (instr: Instr)
        requires
            0xa7 <= opcode <= 0xc4,
        ensures
            instr.spec_opcode() == opcode,
            !(instr is Unsupported) ==> instr.spec_immediate() == Immediate::Absent,
            instr is Unsupported <==> !Instr::plain_opcode(opcode),
    {
        match opcode {
            0xa7 => Instr::I32WrapI64,
            0xa8 => Instr::I32TruncF32S,
            0xa9 => Instr::I32TruncF32U,
            0xaa => Instr::I32TruncF64S,
            0xab => Instr::I32TruncF64U,
            0xac => Instr::I64ExtendI32S,
            0xad => Instr::I64ExtendI32U,
            0xae => Instr::I64TruncF32S,
            0xaf => Instr::I64TruncF32U,
            0xb0 => Instr::I64TruncF64S,
            0xb1 => Instr::I64TruncF64U,
            0xb2 => Instr::F32ConvertI32S,
            0xb3 => Instr::F32ConvertI32U,
            0xb4 => Instr::F32ConvertI64S,
            0xb5 => Instr::F32ConvertI64U,
            0xb6 => Instr::F32DemoteF64,
            0xb7 => Instr::F64ConvertI32S,
            0xb8 => Instr::F64ConvertI32U,
            0xb9 => Instr::F64ConvertI64S,
            0xba => Instr::F64ConvertI64U,
            0xbb => Instr::F64PromoteF32,
            0xbc => Instr::I32ReinterpretF32,
            0xbd => Instr::I64ReinterpretF64,
            0xbe => Instr::F32ReinterpretI32,
            0xbf => Instr::F64ReinterpretI64,
            0xc0 => Instr::I32Extend8S,
            0xc1 => Instr::I32Extend16S,
            0xc2 => Instr::I64Extend8S,
            0xc3 => Instr::I64Extend16S,
            0xc4 => Instr::I64Extend32S,
            _ => Instr::Unsupported { opcode },
        }
    }

    /// The instruction that starts with the byte `opcode` and carries
    /// `immediate`.
    ///
    /// The result is `Unsupported`, with the opcode, exactly where no
    /// instruction with a variant of its own has that encoding.
    pub fn from_opcode(opcode: u8, immediate: Immediate) -> (instr: Instr)
        ensures
            instr.spec_opcode() == opcode,
            !(instr is Unsupported) ==> instr.spec_immediate() == immediate,
            instr is Unsupported <==> !Instr::encoding_listed(opcode, immediate),
            instr == Instr::decoded(opcode, immediate),
    {
        let instr = match immediate {
            Immediate::Absent => {
                if opcode <= 0x26 {
                    Instr::control(opcode)
                } else if 0x28 <= opcode && opcode <= 0x40 {
                    Instr::memory(opcode)
                } else if 0x45 <= opcode && opcode <= 0x66 {
                    Instr::compare(opcode)
                } else if 0x67 <= opcode && opcode <= 0x8a {
                    Instr::integer(opcode)
                } else if 0x8b <= opcode && opcode <= 0xa6 {
                    Instr::float(opcode)
                } else if 0xa7 <= opcode && opcode <= 0xc4 {
                    Instr::convert(opcode)
                } else {
                    Instr::Unsupported { opcode }
                }
            },
            Immediate::Index(index) => match opcode {
                0x10 => Instr::Call { function_index: index },
                0x11 => Instr::CallIndirect { type_index: index },
                0x20 => Instr::LocalGet { local_index: index },
                0x23 => Instr::GlobalGet { global_index: index },
                _ => Instr::Unsupported { opcode },
            },
            Immediate::I32(value) => match opcode {
                0x41 => Instr::I32Const { value },
                _ => Instr::Unsupported { opcode },
            },
            Immediate::I64(value) => match opcode {
                0x42 => Instr::I64Const { value },
                _ => Instr::Unsupported { opcode },
            },
            Immediate::F32(bits) => match opcode {
                0x43 => Instr::F32Const { bits },
                _ => Instr::Unsupported { opcode },
            },
            Immediate::F64(bits) => match opcode {
                0x44 => Instr::F64Const { bits },
                _ => Instr::Unsupported { opcode },
            },
            Immediate::MemoryCopy => match opcode {
                0xfc => Instr::MemoryCopy,
                _ => Instr::Unsupported { opcode },
            },
            Immediate::MemoryFill => match opcode {
                0xfc => Instr::MemoryFill,
                _ => Instr::Unsupported { opcode },
            },
        };
        proof {
            instr.decoded_law(opcode, immediate);
        }
        instr
    }
}

} // verus!
