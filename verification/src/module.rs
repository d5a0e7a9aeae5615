//! A parsed module: its signatures, its functions and its globals.

use vstd::prelude::*;
use crate::instr::Instr;
use crate::opcode::instr_valid;
use crate::parse::ParseError;
use crate::val::WasmType;

verus! {

/// The parameter and result types of a function.
#[derive(Clone, Debug)]
pub struct Signature {
    pub params: Vec<WasmType>,
    pub results: Vec<WasmType>,
}

/// The value of a `Signature`.
pub struct SignatureView {
    pub params: Seq<WasmType>,
    pub results: Seq<WasmType>,
}

impl View for Signature {
    type V = SignatureView;

    open spec fn view(&self) -> SignatureView {
        SignatureView { params: self.params@, results: self.results@ }
    }
}

/// One instruction of a body with the byte offsets at which its encoding
/// starts and ends, counted from the first instruction of the body.
#[derive(Clone, Copy, Debug, PartialEq, Eq, Structural)]
pub struct Op {
    pub instr: Instr,
    pub offset_before: u32,
    pub offset_after: u32,
}

/// The body of a function: its declared locals, as runs of one type, and its
/// instructions in order.
#[derive(Clone, Debug)]
pub struct FuncBody {
    pub locals: Vec<(u32, WasmType)>,
    pub ops: Vec<Op>,
}

/// One entry of the function index space: the index of its signature, and
/// its body unless the function is imported.
#[derive(Clone, Debug)]
pub struct Fn {
    pub fidx: u32,
    pub body: Option<FuncBody>,
}

/// A module. Imported functions come first in `funcs`, then the module's own,
/// so that an index into `funcs` is a function index of the module.
#[derive(Clone, Debug)]
pub struct Module {
    pub types: Vec<Signature>,
    pub funcs: Vec<Fn>,
    pub globals: Vec<WasmType>,
}

/// The offsets are those of instructions laid out one after another: every
/// instruction takes at least one byte, a call at least two, and none starts
/// before the one in front of it ends.
pub open spec fn ops_ordered(ops: Seq<Op>) -> bool {
    &&& forall|i: int| 0 <= i < ops.len() ==> (#[trigger] ops[i]).offset_before < ops[i].offset_after
    &&& forall|i: int|
        0 <= i < ops.len() && (#[trigger] ops[i]).instr.spec_is_call() ==> ops[i].offset_before + 1
            < ops[i].offset_after
    &&& forall|i: int, j: int|
        0 <= i < j < ops.len() ==> (#[trigger] ops[i]).offset_after <= (#[trigger] ops[j]).offset_before
}

impl FuncBody {
    /// The instructions of the body are laid out one after another.
    pub open spec fn offsets_ordered(self) -> bool {
        ops_ordered(self.ops@)
    }
}

impl Module {
    /// The functions can be counted in four bytes, and every function names
    /// a signature that the module has.
    pub open spec fn wf(self) -> bool {
        &&& self.funcs@.len() <= u32::MAX
        &&& forall|i: int|
            0 <= i < self.funcs@.len() ==> (#[trigger] self.funcs@[i]).fidx < self.types@.len()
    }

    /// The signature of the function at `func_idx`.
    pub open spec fn spec_type_by_func(self, func_idx: int) -> Signature
        recommends
            0 <= func_idx < self.funcs@.len(),
            self.funcs@[func_idx].fidx < self.types@.len(),
    {
        self.types@[self.funcs@[func_idx].fidx as int]
    }

    /// A module of the given signatures, functions and globals.
    pub fn new(types: Vec<Signature>, funcs: Vec<Fn>, globals: Vec<WasmType>) -> (module: Module)
        ensures
            module.types == types,
            module.funcs == funcs,
            module.globals == globals,
    {
        Module { types, funcs, globals }
    }

    /// Tests `wf`.
    pub fn is_well_formed(&self) -> (b: bool)
        ensures
            b == self.wf(),
    {
        if self.funcs.len() > u32::MAX as usize {
            return false;
        }
        let mut i: usize = 0;
        while i < self.funcs.len()
            invariant
                i <= self.funcs@.len() <= u32::MAX,
                forall|k: int| 0 <= k < i ==> (#[trigger] self.funcs@[k]).fidx < self.types@.len(),
            decreases self.funcs@.len() - i,
        {
            if self.funcs[i].fidx as usize >= self.types.len() {
                return false;
            }
            i += 1;
        }
        true
    }

    /// The signature of the function at `func_idx`.
    pub fn get_type_by_func(&self, func_idx: u32) -> (sig: &Signature)
        requires
            func_idx < self.funcs@.len(),
            self.funcs@[func_idx as int].fidx < self.types@.len(),
        ensures
            *sig == self.spec_type_by_func(func_idx as int),
    {
        &self.types[self.funcs[func_idx as usize].fidx as usize]
    }

    /// The signature at `type_idx`.
    pub fn get_type_by_type(&self, type_idx: u32) -> (sig: &Signature)
        requires
            type_idx < self.types@.len(),
        ensures
            *sig == self.types@[type_idx as int],
    {
        &self.types[type_idx as usize]
    }

    /// The type of the global at `global_idx`.
    pub fn get_type_by_global(&self, global_idx: u32) -> (ty: &WasmType)
        requires
            global_idx < self.globals@.len(),
        ensures
            *ty == self.globals@[global_idx as int],
    {
        &self.globals[global_idx as usize]
    }
}

/// None of the types is `Any`.
pub open spec fn concrete(types: Seq<WasmType>) -> bool {
    forall|i: int| 0 <= i < types.len() ==> #[trigger] types[i] != WasmType::Any
}

/// None of the declared locals has the type `Any`.
pub open spec fn locals_concrete(decls: Seq<(u32, WasmType)>) -> bool {
    forall|i: int| 0 <= i < decls.len() ==> (#[trigger] decls[i]).1 != WasmType::Any
}

/// Locals that are declared without `Any` are without `Any` when written
/// out.
pub proof fn lemma_expand_concrete(decls: Seq<(u32, WasmType)>)
    requires
        locals_concrete(decls),
    ensures
        concrete(expand_locals(decls)),
    decreases decls.len(),
{
    if decls.len() > 0 {
        assert forall|i: int| 0 <= i < decls.drop_last().len() implies (
        #[trigger] decls.drop_last()[i]).1 != WasmType::Any by {
            assert(decls.drop_last()[i] == decls[i]);
        }
        lemma_expand_concrete(decls.drop_last());
        assert(decls.last() == decls[decls.len() - 1]);
    }
}

/// The declared locals written out one by one: each run `(count, type)`
/// gives `count` locals of that type.
pub open spec fn expand_locals(decls: Seq<(u32, WasmType)>) -> Seq<WasmType>
    decreases decls.len(),
{
    if decls.len() == 0 {
        Seq::empty()
    } else {
        expand_locals(decls.drop_last()) + Seq::new(decls.last().0 as nat, |i: int| decls.last().1)
    }
}

/// The number of locals that the first `n` runs declare.
pub open spec fn declared_count(decls: Seq<(u32, WasmType)>, n: nat) -> nat
    decreases n,
{
    if n == 0 {
        0
    } else {
        declared_count(decls, (n - 1) as nat) + decls[n - 1].0 as nat
    }
}

/// Written out, the declared locals are as many as their runs count.
pub proof fn lemma_declared_count(decls: Seq<(u32, WasmType)>)
    ensures
        expand_locals(decls).len() == declared_count(decls, decls.len()),
    decreases decls.len(),
{
    if decls.len() > 0 {
        lemma_declared_count(decls.drop_last());
        lemma_declared_count_prefix(decls, decls.drop_last(), (decls.len() - 1) as nat);
    }
}

proof fn lemma_declared_count_prefix(a: Seq<(u32, WasmType)>, b: Seq<(u32, WasmType)>, n: nat)
    requires
        n <= a.len(),
        n <= b.len(),
        forall|i: int| 0 <= i < n ==> a[i] == b[i],
    ensures
        declared_count(a, n) == declared_count(b, n),
    decreases n,
{
    if n > 0 {
        lemma_declared_count_prefix(a, b, (n - 1) as nat);
    }
}

impl Module {
    /// The locals of the function `f` with a body: its parameters, then the
    /// locals that its body declares.
    pub open spec fn locals_of(self, f: int) -> Seq<WasmType> {
        self.spec_type_by_func(f).params@ + expand_locals(self.funcs@[f].body->Some_0.locals@)
    }

    /// The body of function `f`, if it has one, can be analysed: every
    /// index in it names something that exists, and the offset after the
    /// first byte of a call can be written.
    pub open spec fn body_valid(self, f: int) -> bool {
        self.funcs@[f].body matches Some(body) ==> {
            &&& forall|i: int|
                0 <= i < body.ops@.len() ==> instr_valid(
                    (#[trigger] body.ops@[i]).instr,
                    self,
                    self.locals_of(f),
                )
            &&& forall|i: int|
                0 <= i < body.ops@.len() && (#[trigger] body.ops@[i]).instr.spec_is_call()
                    ==> body.ops@[i].offset_before < u32::MAX
        }
    }

    /// `Any` is not among the types that the module declares: the types of
    /// its globals, the parameters and results of its signatures, and the
    /// locals of its bodies.
    pub open spec fn types_concrete(self) -> bool {
        &&& concrete(self.globals@)
        &&& forall|t: int|
            0 <= t < self.types@.len() ==> concrete((#[trigger] self.types@[t]).params@) && concrete(
                self.types@[t].results@,
            )
        &&& forall|f: int|
            0 <= f < self.funcs@.len() ==> ((#[trigger] self.funcs@[f]).body matches Some(body)
                ==> locals_concrete(body.locals@))
    }

    /// The instructions of every body are laid out one after another.
    pub open spec fn bodies_ordered(self) -> bool {
        forall|f: int|
            0 <= f < self.funcs@.len() ==> ((#[trigger] self.funcs@[f]).body matches Some(body)
                ==> body.offsets_ordered())
    }

    /// The module is well formed and every body can be analysed.
    pub open spec fn valid(self) -> bool {
        &&& self.wf()
        &&& forall|f: int| 0 <= f < self.funcs@.len() ==> #[trigger] self.body_valid(f)
    }

    /// Puts a module together from its parts: the imported functions come
    /// first, then the functions with bodies, each with the body at its
    /// position.
    ///
    /// Fails with `MissingBody` exactly where there are fewer bodies than
    /// functions that should have one.
    pub fn assemble(
        types: Vec<Signature>,
        import_funcs: Vec<u32>,
        bytecode_funcs: Vec<u32>,
        codes: Vec<FuncBody>,
        globals: Vec<WasmType>,
    ) -> (r: Result<Module, ParseError>)
        ensures
            match r {
                Ok(module) => {
                    &&& bytecode_funcs@.len() <= codes@.len()
                    &&& module.types == types
                    &&& module.globals == globals
                    &&& module.funcs@.len() == import_funcs@.len() + bytecode_funcs@.len()
                    &&& forall|i: int|
                        0 <= i < import_funcs@.len() ==> (#[trigger] module.funcs@[i]).fidx
                            == import_funcs@[i] && module.funcs@[i].body is None
                    &&& forall|j: int|
                        0 <= j < bytecode_funcs@.len() ==> (#[trigger] module.funcs@[import_funcs@.len()
                            + j]).fidx == bytecode_funcs@[j] && module.funcs@[import_funcs@.len()
                            + j].body == Some(codes@[j])
                },
                Err(e) => bytecode_funcs@.len() > codes@.len() && e == ParseError::MissingBody,
            },
    {
        if bytecode_funcs.len() > codes.len() {
            return Err(ParseError::MissingBody);
        }
        let mut funcs: Vec<Fn> = Vec::new();
        let mut i: usize = 0;
        while i < import_funcs.len()
            invariant
                i <= import_funcs@.len(),
                funcs@.len() == i,
                forall|k: int|
                    0 <= k < i ==> (#[trigger] funcs@[k]).fidx == import_funcs@[k]
                        && funcs@[k].body is None,
            decreases import_funcs@.len() - i,
        {
            funcs.push(Fn { fidx: import_funcs[i], body: None });
            i += 1;
        }
        let ghost bodies = codes@;
        let imports = import_funcs.len();
        for body in it: codes.into_iter()
            invariant
                it.seq() == bodies,
                imports == import_funcs@.len(),
                bytecode_funcs@.len() <= bodies.len(),
                funcs@.len() == imports + if it.index() < bytecode_funcs@.len() {
                    it.index() as int
                } else {
                    bytecode_funcs@.len() as int
                },
                forall|k: int|
                    0 <= k < imports ==> (#[trigger] funcs@[k]).fidx == import_funcs@[k]
                        && funcs@[k].body is None,
                forall|j: int|
                    0 <= j < funcs@.len() - imports ==> (#[trigger] funcs@[imports + j]).fidx
                        == bytecode_funcs@[j] && funcs@[imports + j].body == Some(bodies[j]),
        {
            let j = funcs.len() - imports;
            if j < bytecode_funcs.len() {
                funcs.push(Fn { fidx: bytecode_funcs[j], body: Some(body) });
            }
        }
        Ok(Module { types, funcs, globals })
    }

    /// Tests `valid`.
    pub fn is_valid(&self) -> (b: bool)
        ensures
            b == self.valid(),
    {
        if !self.is_well_formed() {
            return false;
        }
        let mut f: usize = 0;
        while f < self.funcs.len()
            invariant
                f <= self.funcs@.len(),
                self.wf(),
                forall|g: int| 0 <= g < f ==> #[trigger] self.body_valid(g),
            decreases self.funcs@.len() - f,
        {
            if !self.is_body_valid(f) {
                return false;
            }
            f += 1;
        }
        true
    }

    fn is_body_valid(&self, f: usize) -> (b: bool)
        requires
            self.wf(),
            f < self.funcs@.len(),
        ensures
            b == self.body_valid(f as int),
    {
        let body = match &self.funcs[f].body {
            Some(body) => body,
            None => {
                return true;
            },
        };
        let params = self.types[self.funcs[f].fidx as usize].params.len();
        let mut declared: u64 = 0;
        let mut k: usize = 0;
        while k < body.locals.len()
            invariant
                k <= body.locals@.len(),
                declared == if declared_count(body.locals@, k as nat) < 0x1_0000_0000 {
                    declared_count(body.locals@, k as nat)
                } else {
                    0x1_0000_0000
                },
            decreases body.locals@.len() - k,
        {
            declared = declared + body.locals[k].0 as u64;
            if declared > 0x1_0000_0000 {
                declared = 0x1_0000_0000;
            }
            k += 1;
        }
        proof {
            lemma_declared_count(body.locals@);
        }
        let ghost locals = self.locals_of(f as int);
        let mut i: usize = 0;
        while i < body.ops.len()
            invariant
                i <= body.ops@.len(),
                self.wf(),
                f < self.funcs@.len(),
                self.funcs@[f as int].body == Some(*body),
                locals == self.locals_of(f as int),
                locals.len() == params + expand_locals(body.locals@).len(),
                declared == if expand_locals(body.locals@).len() < 0x1_0000_0000 {
                    expand_locals(body.locals@).len()
                } else {
                    0x1_0000_0000
                },
                forall|j: int|
                    0 <= j < i ==> instr_valid((#[trigger] body.ops@[j]).instr, *self, locals),
                forall|j: int|
                    0 <= j < i && (#[trigger] body.ops@[j]).instr.spec_is_call()
                        ==> body.ops@[j].offset_before < u32::MAX,
            decreases body.ops@.len() - i,
        {
            let op = body.ops[i];
            let valid = match op.instr {
                Instr::Call { function_index } => (function_index as usize) < self.funcs.len()
                    && op.offset_before < u32::MAX,
                Instr::CallIndirect { type_index } => (type_index as usize) < self.types.len()
                    && op.offset_before < u32::MAX,
                Instr::LocalGet { local_index } => (local_index as usize) < params || ((
                local_index as usize - params) as u64) < declared,
                Instr::GlobalGet { global_index } => (global_index as usize) < self.globals.len(),
                _ => true,
            };
            if !valid {
                return false;
            }
            i += 1;
        }
        true
    }
}

} // verus!
