//! Reading a module from its binary form.

use vstd::prelude::*;
use wasmparser::{BinaryReaderError, FuncType, Operator, Parser, Payload, TypeRef, ValType};
use crate::instr::{Immediate, Instr};
use crate::opcode::instr_valid;
use crate::module::{
    concrete, locals_concrete, ops_ordered, FuncBody, Module, Op, Signature, SignatureView,
};
use crate::val::WasmType;

verus! {

/// `wasmparser::Payload`: one section, or one entry of the code section, of
/// the binary form.
#[verifier::external_type_specification]
#[verifier::external_body]
pub struct ExPayload<'a>(Payload<'a>);

/// `wasmparser::Operator`: one instruction as the parser gives it.
#[verifier::external_type_specification]
#[verifier::external_body]
pub struct ExOperator<'a>(Operator<'a>);

/// `wasmparser::FuncType`: the parameters and results of a function type.
#[verifier::external_type_specification]
#[verifier::external_body]
pub struct ExFuncType(FuncType);

/// `wasmparser::ValType`: a value type of the binary form.
#[verifier::external_type_specification]
#[verifier::external_body]
pub struct ExValType(ValType);

/// `wasmparser::TypeRef`: what an import brings into the module.
#[verifier::external_type_specification]
#[verifier::external_body]
pub struct ExTypeRef(TypeRef);

/// `wasmparser::BinaryReaderError`: why the parser gave up.
#[verifier::external_type_specification]
#[verifier::external_body]
pub struct ExError(BinaryReaderError);

/// One function body as the parser reads it: its declared locals, as runs of
/// one type, what each of its instructions carries and the position in the
/// bytes at which the instruction starts, and the position at which the body
/// ends.
#[derive(Clone, Debug, PartialEq, Eq)]
pub struct RawBody {
    pub locals: Vec<(u32, WasmType)>,
    pub items: Vec<(Immediate, u64)>,
    pub end: u64,
}

/// What the parser reads from the bytes of a module: the function types of
/// the type sections, for every import the index of its signature if it is a
/// function, the signature indices of the function sections, the types of
/// the globals, and the bodies of the code section.
#[derive(Clone, Debug)]
pub struct Parsed {
    pub types: Vec<Signature>,
    pub imports: Vec<Option<u32>>,
    pub functions: Vec<u32>,
    pub globals: Vec<WasmType>,
    pub bodies: Vec<RawBody>,
}

/// The value of a `RawBody`.
pub struct RawBodyView {
    pub locals: Seq<(u32, WasmType)>,
    pub items: Seq<(Immediate, u64)>,
    pub end: u64,
}

/// The value of a `Parsed`.
pub struct ParsedView {
    pub types: Seq<SignatureView>,
    pub imports: Seq<Option<u32>>,
    pub functions: Seq<u32>,
    pub globals: Seq<WasmType>,
    pub bodies: Seq<RawBodyView>,
}

impl View for RawBody {
    type V = RawBodyView;

    open spec fn view(&self) -> RawBodyView {
        RawBodyView { locals: self.locals@, items: self.items@, end: self.end }
    }
}

impl View for Parsed {
    type V = ParsedView;

    open spec fn view(&self) -> ParsedView {
        ParsedView {
            types: self.types@.map_values(|s: Signature| s@),
            imports: self.imports@,
            functions: self.functions@,
            globals: self.globals@,
            bodies: self.bodies@.map_values(|b: RawBody| b@),
        }
    }
}

/// The type that stands for a `wasmparser::ValType`: its own type for each
/// of the five number and vector types, `Ref` for every reference type, and
/// never `Any` or `U8`.
#[verifier::external_body]
pub fn valtype_to_wasmtype(valtype: &ValType) -> (ty: WasmType)
    ensures
        ty != WasmType::Any,
        ty != WasmType::U8,
{
    match valtype {
        ValType::I32 => WasmType::I32,
        ValType::I64 => WasmType::I64,
        ValType::F32 => WasmType::F32,
        ValType::F64 => WasmType::F64,
        ValType::V128 => WasmType::V128,
        ValType::Ref(..) => WasmType::Ref,
    }
}

/// What a `wasmparser::Operator` carries, for the instructions of which
/// that is read: the index of `LocalGet`, `GlobalGet`, `Call` and
/// `CallIndirect`, the value of the integer constants, the bits of the float
/// constants, from `Ieee32::bits` and `Ieee64::bits`, and which of
/// `MemoryCopy` and `MemoryFill` the instruction is.
#[verifier::external_body]
fn immediate_of(op: &Operator<'_>) -> (r: Immediate) {
    match op {
        Operator::LocalGet { local_index } => Immediate::Index(*local_index),
        Operator::GlobalGet { global_index } => Immediate::Index(*global_index),
        Operator::Call { function_index } => Immediate::Index(*function_index),
        Operator::CallIndirect { type_index, .. } => Immediate::Index(*type_index),
        Operator::I32Const { value } => Immediate::I32(*value),
        Operator::I64Const { value } => Immediate::I64(*value),
        Operator::F32Const { value } => Immediate::F32(value.bits()),
        Operator::F64Const { value } => Immediate::F64(value.bits()),
        Operator::MemoryCopy { .. } => Immediate::MemoryCopy,
        Operator::MemoryFill { .. } => Immediate::MemoryFill,
        _ => Immediate::Absent,
    }
}

/// The signature index of an imported function, which is a `TypeRef::Func` or
/// a `TypeRef::FuncExact`; `None` for another import.
#[verifier::external_body]
fn imported_function(ty: &TypeRef) -> (r: Option<u32>) {
    match ty {
        TypeRef::Func(type_index) | TypeRef::FuncExact(type_index) => Some(*type_index),
        _ => None,
    }
}

/// The parameters and results of a function type, from `FuncType::params`
/// and `FuncType::results`, each as the type that stands for it.
#[verifier::external_body]
fn signature_of(ty: &FuncType) -> (sig: Signature) {
    Signature {
        params: ty.params().iter().map(valtype_to_wasmtype).collect(),
        results: ty.results().iter().map(valtype_to_wasmtype).collect(),
    }
}

/// The function types of a `Payload::TypeSection`, read with
/// `TypeSectionReader::into_iter_err_on_gc_types`; none for another payload.
#[verifier::external_body]
fn types_in(payload: &Payload<'_>) -> (r: Result<Vec<Signature>, BinaryReaderError>) {
    match payload {
        Payload::TypeSection(reader) => reader.clone().into_iter_err_on_gc_types().map(
            |ty| ty.map(|ty| signature_of(&ty)),
        ).collect(),
        _ => Ok(Vec::new()),
    }
}

/// For each import of a `Payload::ImportSection`, read with
/// `ImportSectionReader::into_imports`, the signature index if it is a
/// function; none for another payload.
#[verifier::external_body]
fn imports_in(payload: &Payload<'_>) -> (r: Result<Vec<Option<u32>>, BinaryReaderError>) {
    match payload {
        Payload::ImportSection(reader) => reader.clone().into_imports().map(
            |import| import.map(|i| imported_function(&i.ty)),
        ).collect(),
        _ => Ok(Vec::new()),
    }
}

/// The signature indices of a `Payload::FunctionSection`, read with the
/// iterator of the section; none for another payload.
#[verifier::external_body]
fn functions_in(payload: &Payload<'_>) -> (r: Result<Vec<u32>, BinaryReaderError>) {
    match payload {
        Payload::FunctionSection(reader) => reader.clone().into_iter().collect(),
        _ => Ok(Vec::new()),
    }
}

/// The content types of the globals of a `Payload::GlobalSection`, read with
/// the iterator of the section; none for another payload.
#[verifier::external_body]
fn globals_in(payload: &Payload<'_>) -> (r: Result<Vec<WasmType>, BinaryReaderError>) {
    match payload {
        Payload::GlobalSection(reader) => reader.clone().into_iter().map(
            |global| global.map(|g| valtype_to_wasmtype(&g.ty.content_type)),
        ).collect(),
        _ => Ok(Vec::new()),
    }
}

/// The body of a `Payload::CodeSectionEntry`: its locals from
/// `FunctionBody::get_locals_reader`, its instructions with their positions
/// from `FunctionBody::get_operators_reader` and
/// `OperatorsReader::into_iter_with_offsets`, and its end from
/// `FunctionBody::range`; `None` for another payload.
#[verifier::external_body]
fn body_in(payload: &Payload<'_>) -> (r: Result<Option<RawBody>, BinaryReaderError>) {
    let Payload::CodeSectionEntry(body) = payload else { return Ok(None) };
    let locals = body.get_locals_reader()?.into_iter().map(
        |local| local.map(|(count, ty)| (count, valtype_to_wasmtype(&ty))),
    ).collect::<Result<_, _>>()?;
    let items = body.get_operators_reader()?.into_iter_with_offsets().map(
        |op| op.map(|(op, at)| (immediate_of(&op), at)),
    ).collect::<Result<_, _>>()?;
    Ok(Some(RawBody { locals, items, end: body.range().end }))
}

/// The position and the message of a parse error, from `Error::offset` and
/// `Error::message`.
#[verifier::external_body]
fn plain_error(error: BinaryReaderError) -> (r: (u64, String)) {
    (error.offset(), error.message().to_string())
}

/// What the parser reads from the bytes of a module, or the position and the
/// message of its first complaint.
pub uninterp spec fn parsed(buf: Seq<u8>) -> Result<ParsedView, (u64, Seq<char>)>;

/// Calls `Parser::parse_all` on the bytes and reads every payload in turn,
/// up to the first error: the types, imports, functions, globals and bodies
/// that the payloads hold, in their order. What is read depends on the bytes
/// alone. No type in it is `Any`, since `valtype_to_wasmtype` gives none.
#[verifier::external_body]
fn parse(buf: &[u8]) -> (r: Result<Parsed, (u64, String)>)
    ensures
        match r {
            Ok(p) => parsed(buf@) == Ok::<ParsedView, (u64, Seq<char>)>(p@) && p@.concrete(),
            Err(e) => parsed(buf@) == Err::<ParsedView, (u64, Seq<char>)>((e.0, e.1@)),
        },
{
    let (types, imports, functions) = (Vec::new(), Vec::new(), Vec::new());
    let mut p = Parsed { types, imports, functions, globals: Vec::new(), bodies: Vec::new() };
    for payload in Parser::new(0).parse_all(buf) {
        let payload = payload.map_err(plain_error)?;
        p.types.extend(types_in(&payload).map_err(plain_error)?);
        p.imports.extend(imports_in(&payload).map_err(plain_error)?);
        p.functions.extend(functions_in(&payload).map_err(plain_error)?);
        p.globals.extend(globals_in(&payload).map_err(plain_error)?);
        p.bodies.extend(body_in(&payload).map_err(plain_error)?);
    }
    Ok(p)
}

/// Why bytes could not be read as a module.
#[derive(Clone, Debug, PartialEq, Eq)]
pub enum ParseError {
    /// The bytes are not the binary form of a module: what the parser found
    /// wrong, and at which position.
    Malformed { offset: u64, message: String },
    /// The module declares more functions than it has bodies.
    MissingBody,
    /// An instruction of a body starts outside the bytes, the instructions
    /// of a body do not follow one another within four gibibytes, or a call
    /// takes a single byte.
    BadOffsets,
    /// A function names a signature, or an instruction a function, signature,
    /// local or global, that the module does not have.
    InvalidIndex,
}

/// The error for bytes that the parser refused at `offset` with `message`.
fn malformed(offset: u64, message: String) -> (e: ParseError)
    ensures
        e == (ParseError::Malformed { offset, message }),
{
    ParseError::Malformed { offset, message }
}

/// The positions are those of instructions that stand one after another and
/// end at `end`: each starts after the one before, the last one before
/// `end`, a call takes at least two bytes, and `end` is less than four
/// gibibytes after the first.
pub open spec fn positions_ordered(instrs: Seq<(Instr, u64)>, end: u64) -> bool {
    &&& forall|i: int| 0 <= i < instrs.len() ==> (#[trigger] instrs[i]).1 < next_position(instrs, end, i)
    &&& forall|i: int|
        0 <= i < instrs.len() && (#[trigger] instrs[i]).0.spec_is_call() ==> instrs[i].1 + 1
            < next_position(instrs, end, i)
    &&& instrs.len() > 0 ==> end - instrs[0].1 <= u32::MAX
}

/// The position at which the instruction after instruction `i` starts, or
/// `end` for the last instruction.
pub open spec fn next_position(instrs: Seq<(Instr, u64)>, end: u64, i: int) -> u64 {
    if i + 1 < instrs.len() {
        instrs[i + 1].1
    } else {
        end
    }
}

/// The instruction `i` with its offsets, counted from the position of the
/// first instruction.
pub open spec fn located(instrs: Seq<(Instr, u64)>, end: u64, i: int) -> Op {
    Op {
        instr: instrs[i].0,
        offset_before: (instrs[i].1 - instrs[0].1) as u32,
        offset_after: (next_position(instrs, end, i) - instrs[0].1) as u32,
    }
}

proof fn lemma_positions(instrs: Seq<(Instr, u64)>, end: u64, i: int, j: int)
    requires
        positions_ordered(instrs, end),
        0 <= i <= j < instrs.len(),
    ensures
        instrs[i].1 <= instrs[j].1,
        i < j ==> next_position(instrs, end, i) <= instrs[j].1,
        instrs[j].1 < end,
    decreases j - i,
{
    if i < j {
        lemma_positions(instrs, end, i + 1, j);
        assert(instrs[i].1 < next_position(instrs, end, i));
    } else {
        lemma_last_position(instrs, end, j);
    }
}

proof fn lemma_last_position(instrs: Seq<(Instr, u64)>, end: u64, j: int)
    requires
        positions_ordered(instrs, end),
        0 <= j < instrs.len(),
    ensures
        instrs[j].1 < end,
    decreases instrs.len() - j,
{
    assert(instrs[j].1 < next_position(instrs, end, j));
    if j + 1 < instrs.len() {
        lemma_last_position(instrs, end, j + 1);
    }
}

/// Gives every instruction its offsets within the body, from the positions
/// at which the instructions start and the position at which the body ends.
///
/// Fails with `BadOffsets` exactly where the positions are not ordered.
pub fn locate(instrs: &Vec<(Instr, u64)>, end: u64) -> (r: Result<Vec<Op>, ParseError>)
    ensures
        match r {
            Ok(ops) => positions_ordered(instrs@, end) && ops@.len() == instrs@.len() && forall|
                i: int,
            |
                0 <= i < ops@.len() ==> #[trigger] ops@[i] == located(instrs@, end, i),
            Err(e) => !positions_ordered(instrs@, end) && e == ParseError::BadOffsets,
        },
        r matches Ok(ops) ==> ops_ordered(ops@),
{
    let mut ops: Vec<Op> = Vec::new();
    let n = instrs.len();
    if n == 0 {
        return Ok(ops);
    }
    let base = instrs[0].1;
    if end < base || end - base > u32::MAX as u64 {
        proof {
            if positions_ordered(instrs@, end) {
                lemma_positions(instrs@, end, 0, 0);
            }
        }
        return Err(ParseError::BadOffsets);
    }
    let mut i: usize = 0;
    while i < n
        invariant
            i <= n,
            n == instrs@.len(),
            n > 0,
            base == instrs@[0].1,
            base <= end,
            end - base <= u32::MAX,
            ops@.len() == i,
            i < n ==> base <= instrs@[i as int].1,
            forall|k: int| 0 <= k < i ==> #[trigger] ops@[k] == located(instrs@, end, k),
            forall|k: int|
                0 <= k < i ==> base <= (#[trigger] instrs@[k]).1 < next_position(instrs@, end, k)
                    <= end,
            forall|k: int|
                0 <= k < i && (#[trigger] instrs@[k]).0.spec_is_call() ==> instrs@[k].1 + 1
                    < next_position(instrs@, end, k),
        decreases n - i,
    {
        let (instr, position) = instrs[i];
        let next = if i + 1 < n {
            instrs[i + 1].1
        } else {
            end
        };
        let long_enough = if instr.is_call() {
            next > position && next - position >= 2
        } else {
            next > position
        };
        if next > end || !long_enough {
            proof {
                if positions_ordered(instrs@, end) {
                    assert(instrs@[i as int].1 < next_position(instrs@, end, i as int));
                    if i + 1 < n {
                        lemma_positions(instrs@, end, i + 1, i + 1);
                    }
                }
            }
            return Err(ParseError::BadOffsets);
        }
        ops.push(
            Op {
                instr,
                offset_before: (position - base) as u32,
                offset_after: (next - base) as u32,
            },
        );
        i += 1;
    }
    proof {
        assert forall|a: int, b: int| 0 <= a < b < ops@.len() implies (#[trigger] ops@[a]).offset_after
            <= (#[trigger] ops@[b]).offset_before by {
            lemma_positions(instrs@, end, a, b);
        }
    }
    Ok(ops)
}

/// Makes a body of what the parser read of it: its declared locals, and its
/// instructions with their offsets. Which instruction stands at a position is
/// told by the byte there, its first, together with what the parser found it
/// to carry.
fn read_body(buf: &[u8], raw: &RawBody) -> (r: Result<FuncBody, ParseError>)
    ensures
        match r {
            Ok(body) => body.locals@ == raw.locals@ && ops_of(buf@, raw.items@, raw.end) == Ok::<
                Seq<Op>,
                ParseError,
            >(body.ops@) && body.offsets_ordered(),
            Err(e) => ops_of(buf@, raw.items@, raw.end) == Err::<Seq<Op>, ParseError>(e),
        },
{
    let ops = match decode_ops(buf, &raw.items, raw.end) {
        Ok(ops) => ops,
        Err(e) => {
            return Err(e);
        },
    };
    let mut locals: Vec<(u32, WasmType)> = Vec::new();
    let mut i: usize = 0;
    while i < raw.locals.len()
        invariant
            i <= raw.locals@.len(),
            locals@ == raw.locals@.take(i as int),
        decreases raw.locals@.len() - i,
    {
        locals.push(raw.locals[i]);
        i += 1;
        assert(raw.locals@.take(i as int) == raw.locals@.take(i - 1).push(raw.locals@[i - 1]));
    }
    assert(raw.locals@.take(raw.locals@.len() as int) == raw.locals@);
    Ok(FuncBody { locals, ops })
}

/// The signature indices of the imports that are functions, in their order.
pub open spec fn function_imports(imports: Seq<Option<u32>>) -> Seq<u32>
    decreases imports.len(),
{
    if imports.len() == 0 {
        Seq::empty()
    } else {
        match imports.last() {
            Some(index) => function_imports(imports.drop_last()).push(index),
            None => function_imports(imports.drop_last()),
        }
    }
}

fn imported_functions(imports: &Vec<Option<u32>>) -> (indices: Vec<u32>)
    ensures
        indices@ == function_imports(imports@),
{
    let mut indices: Vec<u32> = Vec::new();
    let mut i: usize = 0;
    assert(imports@.take(0) == Seq::<Option<u32>>::empty());
    while i < imports.len()
        invariant
            i <= imports@.len(),
            indices@ == function_imports(imports@.take(i as int)),
        decreases imports@.len() - i,
    {
        match imports[i] {
            Some(index) => {
                indices.push(index);
            },
            None => {},
        }
        i += 1;
        proof {
            let upto = imports@.take(i as int);
            assert(upto.drop_last() == imports@.take(i - 1));
            assert(upto.last() == imports@[i - 1]);
        }
    }
    assert(imports@.take(imports@.len() as int) == imports@);
    indices
}

impl ParsedView {
    /// `Any` is not among the types that were read.
    pub open spec fn concrete(self) -> bool {
        &&& concrete(self.globals)
        &&& forall|t: int|
            0 <= t < self.types.len() ==> concrete((#[trigger] self.types[t]).params) && concrete(
                self.types[t].results,
            )
        &&& forall|b: int|
            0 <= b < self.bodies.len() ==> locals_concrete((#[trigger] self.bodies[b]).locals)
    }

    /// Why no module can be made of what was read from `buf`, before the
    /// indices are looked at: `BadOffsets` where the instructions of some
    /// body do not stand in `buf` one after another, else `MissingBody` where
    /// there are fewer bodies than functions that should have one.
    pub open spec fn error(self, buf: Seq<u8>) -> Option<ParseError> {
        if exists|b: int|
            0 <= b < self.bodies.len() && #[trigger] ops_of(
                buf,
                self.bodies[b].items,
                self.bodies[b].end,
            ) is Err {
            Some(ParseError::BadOffsets)
        } else if self.functions.len() > self.bodies.len() {
            Some(ParseError::MissingBody)
        } else {
            None
        }
    }
}

/// The module is made of what was read from `buf`: it has the signatures and
/// the globals that were read; its functions are the imported functions, then
/// the functions of the function sections, each with the signature index that
/// was read; the imported functions have no body, and every other function
/// has the body at its position, with the locals that were read and the
/// instructions that `ops_of` gives.
pub open spec fn is_module_of(module: Module, buf: Seq<u8>, p: ParsedView) -> bool {
    let imports = function_imports(p.imports);
    &&& module.types@.map_values(|s: Signature| s@) == p.types
    &&& module.globals@ == p.globals
    &&& module.funcs@.len() == imports.len() + p.functions.len()
    &&& p.functions.len() <= p.bodies.len()
    &&& forall|i: int|
        0 <= i < imports.len() ==> (#[trigger] module.funcs@[i]).fidx == imports[i]
            && module.funcs@[i].body is None
    &&& forall|j: int|
        0 <= j < p.functions.len() ==> {
            let func = #[trigger] module.funcs@[imports.len() + j];
            &&& func.fidx == p.functions[j]
            &&& func.body matches Some(body) && body.locals@ == p.bodies[j].locals && ops_of(
                buf,
                p.bodies[j].items,
                p.bodies[j].end,
            ) == Ok::<Seq<Op>, ParseError>(body.ops@)
        }
}

/// Some module that is made of what was read from `buf` is valid.
pub open spec fn parts_valid(buf: Seq<u8>, p: ParsedView) -> bool {
    exists|module: Module| #[trigger] is_module_of(module, buf, p) && module.valid()
}

/// What making a module of what was read from `buf` gives: the error of
/// what was read, if it has one; else the module that is made of it, if that
/// is valid, and `InvalidIndex` if it is not.
pub open spec fn made_as(buf: Seq<u8>, p: ParsedView, r: Result<Module, ParseError>) -> bool {
    match p.error(buf) {
        Some(e) => r == Err::<Module, ParseError>(e),
        None => match r {
            Ok(module) => is_module_of(module, buf, p) && module.valid(),
            Err(e) => e == ParseError::InvalidIndex && !parts_valid(buf, p),
        },
    }
}

/// What reading a module from `buf` gives: where the parser complains,
/// `Malformed` with its position and message; else what making a module of
/// what the parser read gives.
pub open spec fn reads_as(buf: Seq<u8>, r: Result<Module, ParseError>) -> bool {
    match parsed(buf) {
        Err((at, text)) => r matches Err(ParseError::Malformed { offset, message }) && offset == at
            && message@ == text,
        Ok(p) => made_as(buf, p, r),
    }
}

/// Whether a module is valid is told by what it was made of: two modules
/// made of the same parts are both valid or both not.
pub proof fn valid_by_parts(a: Module, b: Module, buf: Seq<u8>, p: ParsedView)
    requires
        is_module_of(a, buf, p),
        is_module_of(b, buf, p),
        a.valid(),
    ensures
        b.valid(),
{
    let imports = function_imports(p.imports);
    assert(a.types@.len() == b.types@.len()) by {
        assert(a.types@.map_values(|s: Signature| s@).len() == a.types@.len());
        assert(b.types@.map_values(|s: Signature| s@).len() == b.types@.len());
    }
    assert forall|t: int| 0 <= t < a.types@.len() implies (#[trigger] a.types@[t])@ == b.types@[t]@ by {
        assert(a.types@.map_values(|s: Signature| s@)[t] == a.types@[t]@);
        assert(b.types@.map_values(|s: Signature| s@)[t] == b.types@[t]@);
    }
    assert forall|f: int| 0 <= f < b.funcs@.len() implies (#[trigger] a.funcs@[f]).fidx
        == b.funcs@[f].fidx && (a.funcs@[f].body is None <==> b.funcs@[f].body is None) && (
    a.funcs@[f].body matches Some(x) ==> b.funcs@[f].body matches Some(y) && x.locals@ == y.locals@
        && x.ops@ == y.ops@) by {
        if f >= imports.len() {
            let j = f - imports.len();
            assert(a.funcs@[imports.len() + j].fidx == p.functions[j]);
            assert(b.funcs@[imports.len() + j].fidx == p.functions[j]);
        }
    }
    assert(b.wf()) by {
        assert forall|f: int| 0 <= f < b.funcs@.len() implies (#[trigger] b.funcs@[f]).fidx
            < b.types@.len() by {
            assert(a.funcs@[f].fidx < a.types@.len());
        }
    }
    assert forall|f: int| 0 <= f < b.funcs@.len() implies #[trigger] b.body_valid(f) by {
        assert(a.body_valid(f));
        if let Some(y) = b.funcs@[f].body {
            let x = a.funcs@[f].body->Some_0;
            assert(a.types@[a.funcs@[f].fidx as int]@ == b.types@[b.funcs@[f].fidx as int]@);
            assert(a.locals_of(f) == b.locals_of(f));
            assert forall|i: int| 0 <= i < y.ops@.len() implies instr_valid(
                (#[trigger] y.ops@[i]).instr,
                b,
                b.locals_of(f),
            ) by {
                assert(instr_valid(x.ops@[i].instr, a, a.locals_of(f)));
                if let Instr::Call { function_index } = y.ops@[i].instr {
                    assert(a.funcs@[function_index as int].fidx == b.funcs@[function_index as int].fidx);
                }
            }
        }
    }
}

/// Reads a module from its binary form.
///
/// The parser reads the bytes, and the module is made of what it read. The
/// result is what `reads_as` says. A module that is returned is valid, the
/// instructions of its bodies follow one another, and `Any` is not among its
/// types.
pub fn new_module(buf: &Vec<u8>) -> (r: Result<Module, ParseError>)
    ensures
        reads_as(buf@, r),
        r matches Ok(module) ==> module.valid() && module.bodies_ordered()
            && module.types_concrete(),
{
    match parse(buf.as_slice()) {
        Ok(read) => module_from(buf.as_slice(), read),
        Err(e) => Err(malformed(e.0, e.1)),
    }
}

/// Makes a module of what the parser read from `buf`.
///
/// The instructions of every body are decoded from `buf`; the imported
/// functions come first, then the functions with bodies; and the module is
/// returned only if every index in it names something that it has. The
/// result is what `made_as` says.
#[verifier::loop_isolation(false)]
pub fn module_from(buf: &[u8], read: Parsed) -> (r: Result<Module, ParseError>)
    ensures
        made_as(buf@, read@, r),
        r matches Ok(module) ==> module.valid() && module.bodies_ordered() && (read@.concrete()
            ==> module.types_concrete()),
{
    let ghost p = read@;
    let mut codes: Vec<FuncBody> = Vec::new();
    let mut b: usize = 0;
    while b < read.bodies.len()
        invariant
            b <= read.bodies@.len(),
            p == read@,
            codes@.len() == b,
            forall|c: int|
                0 <= c < b ==> (#[trigger] codes@[c]).locals@ == p.bodies[c].locals && ops_of(
                    buf@,
                    p.bodies[c].items,
                    p.bodies[c].end,
                ) == Ok::<Seq<Op>, ParseError>(codes@[c].ops@) && codes@[c].offsets_ordered(),
        decreases read.bodies@.len() - b,
    {
        assert(p.bodies[b as int] == read.bodies@[b as int]@);
        match read_body(buf, &read.bodies[b]) {
            Ok(body) => {
                codes.push(body);
            },
            Err(e) => {
                assert(ops_of(buf@, p.bodies[b as int].items, p.bodies[b as int].end) is Err);
                return Err(e);
            },
        }
        b += 1;
    }
    assert forall|c: int| 0 <= c < p.bodies.len() implies !(#[trigger] ops_of(
        buf@,
        p.bodies[c].items,
        p.bodies[c].end,
    ) is Err) by {
        assert(codes@[c].locals@ == p.bodies[c].locals);
    }
    let import_funcs = imported_functions(&read.imports);
    let ghost bodies = codes@;
    let ghost imports = import_funcs@.len() as int;
    let Parsed { types, imports: _, functions, globals, bodies: _ } = read;
    let module = match Module::assemble(types, import_funcs, functions, codes, globals) {
        Ok(module) => module,
        Err(e) => {
            return Err(e);
        },
    };
    proof {
        assert forall|j: int| 0 <= j < p.functions.len() implies {
            let func = #[trigger] module.funcs@[imports + j];
            &&& func.fidx == p.functions[j]
            &&& func.body matches Some(body) && body.locals@ == p.bodies[j].locals && ops_of(
                buf@,
                p.bodies[j].items,
                p.bodies[j].end,
            ) == Ok::<Seq<Op>, ParseError>(body.ops@)
        } by {
            assert(module.funcs@[imports + j].body == Some(bodies[j]));
        }
        assert(is_module_of(module, buf@, p));
        assert forall|f: int| 0 <= f < module.funcs@.len() implies ((
        #[trigger] module.funcs@[f]).body matches Some(body) ==> body.offsets_ordered() && (
        p.concrete() ==> locals_concrete(body.locals@))) by {
            if f >= imports {
                let j = f - imports;
                assert(module.funcs@[imports + j].body == Some(bodies[j]));
                if p.concrete() {
                    assert(locals_concrete(p.bodies[j].locals));
                }
            }
        }
        if p.concrete() {
            assert forall|t: int| 0 <= t < module.types@.len() implies concrete(
                (#[trigger] module.types@[t]).params@,
            ) && concrete(module.types@[t].results@) by {
                assert(p.types[t] == module.types@[t]@);
            }
        }
    }
    if !module.is_valid() {
        proof {
            assert forall|other: Module| #[trigger] is_module_of(other, buf@, p) implies !other.valid() by {
                if other.valid() {
                    valid_by_parts(other, module, buf@, p);
                }
            }
        }
        return Err(ParseError::InvalidIndex);
    }
    Ok(module)
}

/// The instructions that stand in `buf` at the positions of `items`: each is
/// decoded from the byte at its position and from what it carries.
pub open spec fn instrs_of(buf: Seq<u8>, items: Seq<(Immediate, u64)>) -> Seq<(Instr, u64)> {
    Seq::new(
        items.len(),
        |i: int| (Instr::decoded(buf[items[i].1 as int], items[i].0), items[i].1),
    )
}

/// Every position lies within `buf`.
pub open spec fn positions_within(buf: Seq<u8>, items: Seq<(Immediate, u64)>) -> bool {
    forall|i: int| 0 <= i < items.len() ==> (#[trigger] items[i]).1 < buf.len()
}

/// The instructions of a body that ends at `end`, with their offsets, from
/// what each of them carries and the position at which it starts in `buf`.
///
/// There are none, but `BadOffsets`, where a position lies outside `buf` or
/// the positions are not ordered.
pub open spec fn ops_of(buf: Seq<u8>, items: Seq<(Immediate, u64)>, end: u64) -> Result<
    Seq<Op>,
    ParseError,
> {
    if positions_within(buf, items) && positions_ordered(instrs_of(buf, items), end) {
        Ok(Seq::new(items.len(), |i: int| located(instrs_of(buf, items), end, i)))
    } else {
        Err(ParseError::BadOffsets)
    }
}

/// Instructions that are decoded from a buffer are laid out one after
/// another, and each starts with the byte of the buffer at which it stands,
/// counted from the place of the first.
pub proof fn decoded_ops_law(buf: Seq<u8>, items: Seq<(Immediate, u64)>, end: u64)
    requires
        ops_of(buf, items, end) is Ok,
    ensures
        ({
            let ops = ops_of(buf, items, end)->Ok_0;
            &&& ops.len() == items.len()
            &&& ops_ordered(ops)
            &&& forall|i: int|
                0 <= i < ops.len() ==> items[0].1 + (#[trigger] ops[i]).offset_before < buf.len()
                    && ops[i].instr.spec_opcode() == buf[items[0].1 + ops[i].offset_before]
        }),
{
    let instrs = instrs_of(buf, items);
    let ops = ops_of(buf, items, end)->Ok_0;
    assert forall|i: int| 0 <= i < ops.len() implies items[0].1 + (#[trigger] ops[i]).offset_before
        < buf.len() && ops[i].instr.spec_opcode() == buf[items[0].1 + ops[i].offset_before]
        && ops[i].offset_before < ops[i].offset_after && (ops[i].instr.spec_is_call()
        ==> ops[i].offset_before + 1 < ops[i].offset_after) by {
        lemma_positions(instrs, end, 0, i);
        if i + 1 < instrs.len() {
            lemma_positions(instrs, end, 0, i + 1);
        }
        assert(instrs[i].1 < next_position(instrs, end, i));
        assert(ops[i] == located(instrs, end, i));
        Instr::decoded_opcode_law(buf[items[i].1 as int], items[i].0);
    }
    assert forall|a: int, b: int| 0 <= a < b < ops.len() implies (#[trigger] ops[a]).offset_after <= (
    #[trigger] ops[b]).offset_before by {
        lemma_positions(instrs, end, a, b);
        lemma_positions(instrs, end, 0, a);
        lemma_positions(instrs, end, 0, b);
        if a + 1 < instrs.len() {
            lemma_positions(instrs, end, 0, a + 1);
        }
    }
}

/// Gives every instruction of a body its kind and its offsets, from what
/// the instruction carries and the position at which it starts in `buf`. The
/// kind is told by the byte at that position.
///
/// Fails with `BadOffsets` exactly where a position lies outside `buf` or the
/// positions are not ordered.
pub fn decode_ops(buf: &[u8], items: &Vec<(Immediate, u64)>, end: u64) -> (r: Result<
    Vec<Op>,
    ParseError,
>)
    ensures
        match r {
            Ok(ops) => ops_of(buf@, items@, end) == Ok::<Seq<Op>, ParseError>(ops@),
            Err(e) => ops_of(buf@, items@, end) == Err::<Seq<Op>, ParseError>(e),
        },
        r matches Ok(ops) ==> ops_ordered(ops@),
{
    let mut instrs: Vec<(Instr, u64)> = Vec::new();
    let mut k: usize = 0;
    while k < items.len()
        invariant
            k <= items@.len(),
            instrs@.len() == k,
            forall|j: int| 0 <= j < k ==> (#[trigger] items@[j]).1 < buf@.len(),
            forall|j: int| 0 <= j < k ==> #[trigger] instrs@[j] == instrs_of(buf@, items@)[j],
        decreases items@.len() - k,
    {
        let (immediate, position) = items[k];
        if position >= buf.len() as u64 {
            assert(!positions_within(buf@, items@));
            return Err(ParseError::BadOffsets);
        }
        let opcode = buf[position as usize];
        let instr = Instr::from_opcode(opcode, immediate);
        proof {
            instr.decoded_law(opcode, immediate);
        }
        instrs.push((instr, position));
        k += 1;
    }
    assert(instrs@ =~= instrs_of(buf@, items@));
    match locate(&instrs, end) {
        Ok(ops) => {
            assert(ops@ =~= Seq::new(
                items@.len(),
                |i: int| located(instrs_of(buf@, items@), end, i),
            ));
            Ok(ops)
        },
        Err(e) => Err(e),
    }
}

} // verus!
