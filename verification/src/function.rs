//! Functions and the simulation of their operand stack.

use vstd::prelude::*;
use crate::error::{AnalysisError, FunctionError};
use crate::instr::Instr;
use crate::module::{concrete, expand_locals, ops_ordered, FuncBody, Module, Op};
use crate::opcode::{effect_of, instr_valid, Effect, OpInfo};
use crate::val::WasmType;

verus! {

/// A function of a module: imported, or with a body of its own.
pub enum Function<'a> {
    ImportFunction(ImportFunction<'a>),
    BytecodeFunction(BytecodeFunction<'a>),
}

/// A function that the module imports. It has no body to analyse.
pub struct ImportFunction<'a> {
    pub module: &'a Module,
}

/// A function with a body, together with the types of its locals: first its
/// parameters, then the locals that the body declares.
pub struct BytecodeFunction<'a> {
    pub module: &'a Module,
    pub body: &'a FuncBody,
    pub fidx: u32,
    pub locals: Vec<WasmType>,
}

/// One slot of the operand stack: the instruction that pushed the value, and
/// the type of the value.
pub type Slot = (Instr, WasmType);

/// The operand stack, its top last.
#[derive(Clone, Debug)]
pub struct Stack {
    pub inner: Vec<Slot>,
}

/// The stack as it stands at one offset of a function.
#[derive(Clone, Debug)]
pub struct CodePos {
    pub op: Instr,
    pub offset: u32,
    pub stack: Stack,
}

/// The value of a `CodePos`.
pub struct Snapshot {
    pub op: Instr,
    pub offset: u32,
    pub stack: Seq<Slot>,
}

impl View for Stack {
    type V = Seq<Slot>;

    open spec fn view(&self) -> Seq<Slot> {
        self.inner@
    }
}

impl View for CodePos {
    type V = Snapshot;

    open spec fn view(&self) -> Snapshot {
        Snapshot { op: self.op, offset: self.offset, stack: self.stack@ }
    }
}

/// The values of a list of `CodePos`.
pub open spec fn snapshots_of(codes: Seq<CodePos>) -> Seq<Snapshot> {
    codes.map_values(|c: CodePos| c@)
}

/// The stack without the operands that the effect takes; `None` where it
/// holds fewer than that.
pub open spec fn apply_input(stack: Seq<Slot>, effect: Effect) -> Option<Seq<Slot>> {
    if effect.input.len() <= stack.len() {
        Some(stack.take(stack.len() - effect.input.len()))
    } else {
        None
    }
}

/// The operands that the effect takes from the stack, the deepest first.
pub open spec fn taken_by(stack: Seq<Slot>, effect: Effect) -> Seq<Slot>
    recommends
        effect.input.len() <= stack.len(),
{
    stack.subrange(stack.len() - effect.input.len(), stack.len() as int)
}

/// The type of result `j` of an instruction that took the operands `taken`.
///
/// A result whose type the effect leaves open has the type of the operand at
/// the same position: the value that `select` gives has the type of the
/// values it chooses from, and `local.tee` gives back what it took.
pub open spec fn pushed_type(effect: Effect, taken: Seq<Slot>, j: int) -> WasmType {
    if effect.output[j] == WasmType::Any && j < taken.len() {
        taken[j].1
    } else {
        effect.output[j]
    }
}

/// The stack with the results of the effect pushed, each marked with the
/// instruction that pushed it.
pub open spec fn apply_output(stack: Seq<Slot>, instr: Instr, effect: Effect, taken: Seq<Slot>) -> Seq<
    Slot,
> {
    stack + Seq::new(effect.output.len(), |j: int| (instr, pushed_type(effect, taken, j)))
}

/// The snapshot that is recorded before the first instruction: the empty
/// stack at offset 0.
pub open spec fn entry_snapshot() -> Snapshot {
    Snapshot { op: Instr::Nop, offset: 0, stack: Seq::empty() }
}

/// Where a simulation stands: the snapshots recorded so far, the stack, and
/// whether a `return` has ended it.
pub struct SimState {
    pub snapshots: Seq<Snapshot>,
    pub stack: Seq<Slot>,
    pub halted: bool,
}

impl Stack {
    /// The empty stack.
    pub fn new() -> (stack: Self)
        ensures
            stack@ == Seq::<Slot>::empty(),
    {
        Self { inner: Vec::new() }
    }

    /// The number of slots.
    pub fn len(&self) -> (n: usize)
        ensures
            n == self@.len(),
    {
        self.inner.len()
    }

    /// Puts a slot on top.
    pub fn push(&mut self, entry: Slot)
        ensures
            final(self)@ == old(self)@.push(entry),
    {
        self.inner.push(entry);
    }

    /// A stack with the same slots.
    pub fn copy(&self) -> (stack: Self)
        ensures
            stack@ == self@,
    {
        let mut inner: Vec<Slot> = Vec::new();
        let mut i: usize = 0;
        while i < self.inner.len()
            invariant
                i <= self.inner@.len(),
                inner@ == self.inner@.take(i as int),
            decreases self.inner@.len() - i,
        {
            inner.push(self.inner[i]);
            i += 1;
            assert(self.inner@.take(i as int) == self.inner@.take(i - 1).push(self.inner@[i - 1]));
        }
        assert(self.inner@.take(self.inner@.len() as int) == self.inner@);
        Self { inner }
    }
}

impl CodePos {
    /// The stack as it stands at `offset`, recorded for `op`.
    pub fn new(op: Instr, offset: u32, stack: Stack) -> (code: Self)
        ensures
            code.op == op,
            code.offset == offset,
            code.stack == stack,
    {
        Self { op, offset, stack }
    }
}

/// Takes the operands of one instruction from the stack, and gives them, the
/// deepest first.
///
/// Fails with `StackUnderflow`, and leaves the stack as it was, where the
/// stack holds fewer slots than the instruction takes.
pub fn stack_apply_input(stack: &mut Stack, opinfo: &OpInfo) -> (r: Result<
    Vec<Slot>,
    AnalysisError,
>)
    ensures
        match r {
            Ok(taken) => apply_input(old(stack)@, opinfo@) == Some(final(stack)@) && taken@
                == taken_by(old(stack)@, opinfo@),
            Err(e) => apply_input(old(stack)@, opinfo@) is None && e == AnalysisError::StackUnderflow
                && final(stack)@ == old(stack)@,
        },
{
    let pop_len = opinfo.input.len();
    let stack_len = stack.len();
    if pop_len > stack_len {
        return Err(AnalysisError::StackUnderflow);
    }
    let taken = stack.inner.split_off(stack_len - pop_len);
    assert(stack@ == old(stack)@.take(stack_len - pop_len));
    Ok(taken)
}

/// Pushes the results of one instruction that took the operands `taken`,
/// each marked with the instruction.
pub fn stack_apply_output(stack: &mut Stack, opcode: &Instr, opinfo: &OpInfo, taken: &Vec<Slot>)
    ensures
        final(stack)@ == apply_output(old(stack)@, *opcode, opinfo@, taken@),
{
    let ghost pushed = Seq::new(
        opinfo.output@.len(),
        |j: int| (*opcode, pushed_type(opinfo@, taken@, j)),
    );
    let mut i: usize = 0;
    while i < opinfo.output.len()
        invariant
            i <= opinfo.output@.len(),
            pushed == Seq::new(
                opinfo.output@.len(),
                |j: int| (*opcode, pushed_type(opinfo@, taken@, j)),
            ),
            stack@ == old(stack)@ + pushed.take(i as int),
        decreases opinfo.output@.len() - i,
    {
        let declared = opinfo.output[i];
        let typ = match declared {
            WasmType::Any => if i < taken.len() {
                taken[i].1
            } else {
                declared
            },
            _ => declared,
        };
        stack.push((*opcode, typ));
        i += 1;
        assert(pushed.take(i as int) == pushed.take(i - 1).push(pushed[i - 1]));
    }
    assert(pushed.take(pushed.len() as int) == pushed);
}

/// Both steps of `stack_apply_input` and `stack_apply_output` in one.
pub fn stack_apply(stack: &mut Stack, opcode: &Instr, opinfo: &OpInfo) -> (r: Result<
    (),
    AnalysisError,
>)
    ensures
        match r {
            Ok(_) => apply_input(old(stack)@, opinfo@) matches Some(popped) && final(stack)@
                == apply_output(popped, *opcode, opinfo@, taken_by(old(stack)@, opinfo@)),
            Err(e) => apply_input(old(stack)@, opinfo@) is None && e == AnalysisError::StackUnderflow
                && final(stack)@ == old(stack)@,
        },
{
    match stack_apply_input(stack, opinfo) {
        Ok(taken) => {
            stack_apply_output(stack, opcode, opinfo, &taken);
            Ok(())
        },
        Err(e) => Err(e),
    }
}

impl<'a> Function<'a> {
    /// The module of the function.
    pub open spec fn spec_module(&self) -> &'a Module {
        match self {
            Function::ImportFunction(f) => f.module,
            Function::BytecodeFunction(f) => f.module,
        }
    }

    /// The module of the function.
    pub fn module(&self) -> (module: &Module)
        ensures
            module == self.spec_module(),
    {
        match self {
            Function::ImportFunction(f) => f.module,
            Function::BytecodeFunction(f) => f.module,
        }
    }

    /// A function with a body is well formed; an imported one always is.
    pub open spec fn wf(&self) -> bool {
        match self {
            Function::ImportFunction(_) => true,
            Function::BytecodeFunction(f) => f@.wf(),
        }
    }
}

impl<'a> ImportFunction<'a> {
    /// An imported function of `module`.
    pub fn new(module: &'a Module) -> (f: Self)
        ensures
            f.module == module,
    {
        Self { module }
    }
}

/// The value of a `BytecodeFunction`: its module, its index in the module,
/// the types of its locals and its instructions.
pub struct FunctionView {
    pub module: Module,
    pub fidx: u32,
    pub locals: Seq<WasmType>,
    pub ops: Seq<Op>,
}

impl<'a> View for BytecodeFunction<'a> {
    type V = FunctionView;

    open spec fn view(&self) -> FunctionView {
        FunctionView {
            module: *self.module,
            fidx: self.fidx,
            locals: self.locals@,
            ops: self.body.ops@,
        }
    }
}

impl<'a> View for Function<'a> {
    type V = Option<FunctionView>;

    open spec fn view(&self) -> Option<FunctionView> {
        match self {
            Function::ImportFunction(_) => None,
            Function::BytecodeFunction(f) => Some(f@),
        }
    }
}

impl FunctionView {
    /// The function can be analysed: it is a function of its module, the
    /// module is well formed, every index in its body names something that
    /// exists, and the offset after the first byte of a call can be written.
    pub open spec fn wf(self) -> bool {
        &&& self.module.wf()
        &&& self.fidx < self.module.funcs@.len()
        &&& forall|i: int|
            0 <= i < self.ops.len() ==> instr_valid(
                (#[trigger] self.ops[i]).instr,
                self.module,
                self.locals,
            )
        &&& forall|i: int|
            0 <= i < self.ops.len() && (#[trigger] self.ops[i]).instr.spec_is_call()
                ==> self.ops[i].offset_before < u32::MAX
    }

    /// The number of results that the function declares.
    pub open spec fn result_arity(self) -> nat {
        self.module.spec_type_by_func(self.fidx as int).results@.len()
    }

    /// What one instruction does to the stack, and what is recorded for it.
    ///
    /// The operands are taken, then the results pushed, and the stack is
    /// recorded at the offset where the instruction ends. A call is recorded
    /// once more, one byte after its start, with its operands taken and its
    /// results not yet pushed. A `return` needs as many values on the stack as
    /// the function has results.
    pub open spec fn step(self, stack: Seq<Slot>, op: Op) -> Result<
        (Seq<Snapshot>, Seq<Slot>),
        FunctionError,
    > {
        match effect_of(op.instr, self.module, self.locals) {
            None => Err(
                FunctionError {
                    offset: op.offset_before,
                    kind: AnalysisError::UnsupportedOpcode(op.instr),
                },
            ),
            Some(effect) => {
                if op.instr is Return && stack.len() < self.result_arity() {
                    Err(
                        FunctionError {
                            offset: op.offset_before,
                            kind: AnalysisError::StackUnderflow,
                        },
                    )
                } else {
                    match apply_input(stack, effect) {
                        None => Err(
                            FunctionError {
                                offset: op.offset_before,
                                kind: AnalysisError::StackUnderflow,
                            },
                        ),
                        Some(popped) => {
                            let pushed = apply_output(
                                popped,
                                op.instr,
                                effect,
                                taken_by(stack, effect),
                            );
                            let after = Snapshot {
                                op: op.instr,
                                offset: op.offset_after,
                                stack: pushed,
                            };
                            if op.instr.spec_is_call() {
                                let during = Snapshot {
                                    op: op.instr,
                                    offset: (op.offset_before + 1) as u32,
                                    stack: popped,
                                };
                                Ok((seq![during, after], pushed))
                            } else {
                                Ok((seq![after], pushed))
                            }
                        },
                    }
                }
            },
        }
    }

    /// The simulation of the first `n` instructions, from the empty stack.
    ///
    /// It ends at the first `return`, and fails at the first instruction that
    /// `step` fails on.
    pub open spec fn run_prefix(self, n: nat) -> Result<SimState, FunctionError>
        decreases n,
    {
        if n == 0 {
            Ok(SimState { snapshots: seq![entry_snapshot()], stack: Seq::empty(), halted: false })
        } else {
            match self.run_prefix((n - 1) as nat) {
                Err(e) => Err(e),
                Ok(state) => {
                    if state.halted {
                        Ok(state)
                    } else {
                        match self.step(state.stack, self.ops[n - 1]) {
                            Err(e) => Err(e),
                            Ok((recorded, stack)) => Ok(
                                SimState {
                                    snapshots: state.snapshots + recorded,
                                    stack,
                                    halted: self.ops[n - 1].instr is Return,
                                },
                            ),
                        }
                    }
                },
            }
        }
    }

    /// The snapshots of the whole body, or the failure that ended the
    /// simulation.
    pub open spec fn run(self) -> Result<Seq<Snapshot>, FunctionError> {
        match self.run_prefix(self.ops.len()) {
            Ok(state) => Ok(state.snapshots),
            Err(e) => Err(e),
        }
    }

    /// Once the simulation has failed, it stays failed with the same error.
    pub proof fn lemma_failure_stays(self, n: nat, m: nat)
        requires
            n <= m,
            self.run_prefix(n) is Err,
        ensures
            self.run_prefix(m) == self.run_prefix(n),
        decreases m,
    {
        if n < m {
            self.lemma_failure_stays(n, (m - 1) as nat);
        }
    }

    /// Once a `return` has ended the simulation, nothing more is recorded.
    pub proof fn lemma_halt_stays(self, n: nat, m: nat)
        requires
            n <= m,
            self.run_prefix(n) matches Ok(state) && state.halted,
        ensures
            self.run_prefix(m) == self.run_prefix(n),
        decreases m,
    {
        if n < m {
            self.lemma_halt_stays(n, (m - 1) as nat);
        }
    }

    /// The number of calls among the first `n` instructions.
    pub open spec fn calls_in(self, n: nat) -> nat
        decreases n,
    {
        if n == 0 {
            0
        } else {
            self.calls_in((n - 1) as nat) + if self.ops[n - 1].instr.spec_is_call() {
                1nat
            } else {
                0nat
            }
        }
    }

    /// The number of operands that the first `n` instructions take.
    pub open spec fn popped_in(self, n: nat) -> nat
        decreases n,
    {
        if n == 0 {
            0
        } else {
            self.popped_in((n - 1) as nat) + match effect_of(
                self.ops[n - 1].instr,
                self.module,
                self.locals,
            ) {
                Some(effect) => effect.input.len(),
                None => 0,
            }
        }
    }

    /// The number of results that the first `n` instructions push.
    pub open spec fn pushed_in(self, n: nat) -> nat
        decreases n,
    {
        if n == 0 {
            0
        } else {
            self.pushed_in((n - 1) as nat) + match effect_of(
                self.ops[n - 1].instr,
                self.module,
                self.locals,
            ) {
                Some(effect) => effect.output.len(),
                None => 0,
            }
        }
    }

    /// The number of constants and binary arithmetic instructions among the
    /// first `n` instructions: each of them pushes one value.
    pub open spec fn arithmetic_pushes(self, n: nat) -> nat
        decreases n,
    {
        if n == 0 {
            0
        } else {
            let instr = self.ops[n - 1].instr;
            self.arithmetic_pushes((n - 1) as nat) + if instr.is_const()
                || instr.is_binary_arithmetic() {
                1nat
            } else {
                0nat
            }
        }
    }

    /// Twice the number of binary arithmetic instructions among the first `n`
    /// instructions: each of them takes two values.
    pub open spec fn arithmetic_pops(self, n: nat) -> nat
        decreases n,
    {
        if n == 0 {
            0
        } else {
            self.arithmetic_pops((n - 1) as nat) + if self.ops[n
                - 1].instr.is_binary_arithmetic() {
                2nat
            } else {
                0nat
            }
        }
    }

    /// No `return` stands among the first `n` instructions.
    pub open spec fn no_return_in(self, n: nat) -> bool {
        forall|k: int| 0 <= k < n ==> !((#[trigger] self.ops[k]).instr is Return)
    }

    /// A call is recorded twice and every other instruction once. The first
    /// snapshot of a call stands one byte after the start of the call and
    /// holds the stack as it was before the call, without the operands that
    /// the call takes; for a direct call these are the callee's parameters.
    pub proof fn call_snapshot_law(self, stack: Seq<Slot>, op: Op)
        requires
            self.step(stack, op) is Ok,
        ensures
            ({
                let recorded = self.step(stack, op)->Ok_0.0;
                let taken = effect_of(op.instr, self.module, self.locals)->Some_0.input.len();
                &&& !op.instr.spec_is_call() ==> recorded.len() == 1
                &&& op.instr.spec_is_call() ==> {
                    &&& recorded.len() == 2
                    &&& recorded[0].offset == (op.offset_before + 1) as u32
                    &&& recorded[0].stack.len() == stack.len() - taken
                    &&& recorded[0].stack == stack.take(stack.len() - taken)
                }
                &&& op.instr matches Instr::Call { function_index } ==> taken
                    == self.module.spec_type_by_func(function_index as int).params@.len()
                &&& op.instr matches Instr::CallIndirect { type_index } ==> taken
                    == self.module.types@[type_index as int].params@.len() + 1
                &&& recorded.last().offset == op.offset_after
                &&& recorded.last().stack == self.step(stack, op)->Ok_0.1
            }),
    {
    }

    /// As long as no `return` is met, the number of snapshots is the number
    /// of instructions plus the number of calls among them.
    pub proof fn snapshot_count_law(self, n: nat)
        requires
            n <= self.ops.len(),
            self.run_prefix(n) is Ok,
            self.no_return_in(n),
        ensures
            self.run_prefix(n)->Ok_0.snapshots.len() == 1 + n + self.calls_in(n),
            !self.run_prefix(n)->Ok_0.halted,
        decreases n,
    {
        if n > 0 {
            self.snapshot_count_law((n - 1) as nat);
        }
    }

    /// As long as no `return` is met, the stack holds as many values as the
    /// instructions have pushed, less those that they have taken.
    pub proof fn depth_law(self, n: nat)
        requires
            n <= self.ops.len(),
            self.run_prefix(n) is Ok,
            self.no_return_in(n),
        ensures
            self.run_prefix(n)->Ok_0.stack.len() == self.pushed_in(n) - self.popped_in(n),
            !self.run_prefix(n)->Ok_0.halted,
        decreases n,
    {
        if n > 0 {
            self.depth_law((n - 1) as nat);
        }
    }

    /// In a body of constants and binary arithmetic alone, the stack at the
    /// end holds one value for each instruction, less two for each binary
    /// instruction.
    pub proof fn arithmetic_depth_law(self)
        requires
            forall|k: int|
                0 <= k < self.ops.len() ==> {
                    let instr = (#[trigger] self.ops[k]).instr;
                    instr.is_const() || instr.is_binary_arithmetic()
                },
            self.run_prefix(self.ops.len()) is Ok,
        ensures
            self.run_prefix(self.ops.len())->Ok_0.stack.len() == self.arithmetic_pushes(
                self.ops.len(),
            ) - self.arithmetic_pops(self.ops.len()),
    {
        self.lemma_arithmetic_counts(self.ops.len());
        self.depth_law(self.ops.len());
    }

    proof fn lemma_arithmetic_counts(self, n: nat)
        requires
            n <= self.ops.len(),
            forall|k: int|
                0 <= k < self.ops.len() ==> {
                    let instr = (#[trigger] self.ops[k]).instr;
                    instr.is_const() || instr.is_binary_arithmetic()
                },
        ensures
            self.no_return_in(n),
            self.pushed_in(n) == self.arithmetic_pushes(n),
            self.popped_in(n) == self.arithmetic_pops(n),
        decreases n,
    {
        if n > 0 {
            self.lemma_arithmetic_counts((n - 1) as nat);
            let instr = self.ops[n - 1].instr;
            assert(instr.is_const() || instr.is_binary_arithmetic());
        }
    }

    /// Every slot that the simulation records, and every slot of its stack,
    /// was pushed by an instruction of the body.
    pub proof fn lemma_slots_from_body(self, n: nat)
        requires
            n <= self.ops.len(),
            self.run_prefix(n) is Ok,
        ensures
            ({
                let state = self.run_prefix(n)->Ok_0;
                &&& forall|j: int|
                    0 <= j < state.stack.len() ==> self.pushed_by_body(#[trigger] state.stack[j])
                &&& forall|s: int, j: int|
                    0 <= s < state.snapshots.len() && 0 <= j < state.snapshots[s].stack.len()
                        ==> self.pushed_by_body(#[trigger] state.snapshots[s].stack[j])
            }),
        decreases n,
    {
        if n > 0 {
            self.lemma_slots_from_body((n - 1) as nat);
            let before = self.run_prefix((n - 1) as nat)->Ok_0;
            if !before.halted {
                let op = self.ops[n - 1];
                let state = self.run_prefix(n)->Ok_0;
                let (recorded, stack) = self.step(before.stack, op)->Ok_0;
                let effect = effect_of(op.instr, self.module, self.locals)->Some_0;
                let popped = apply_input(before.stack, effect)->Some_0;
                assert forall|j: int| 0 <= j < popped.len() implies self.pushed_by_body(
                    #[trigger] popped[j],
                ) by {
                    assert(popped[j] == before.stack[j]);
                }
                assert forall|j: int| 0 <= j < stack.len() implies self.pushed_by_body(
                    #[trigger] stack[j],
                ) by {
                    if j < popped.len() {
                        assert(stack[j] == popped[j]);
                    } else {
                        assert(stack[j].0 == self.ops[n - 1].instr);
                    }
                }
                assert forall|s: int, j: int|
                    0 <= s < state.snapshots.len() && 0 <= j
                        < state.snapshots[s].stack.len() implies self.pushed_by_body(
                    #[trigger] state.snapshots[s].stack[j],
                ) by {
                    if s < before.snapshots.len() {
                        assert(state.snapshots[s] == before.snapshots[s]);
                    } else {
                        let r = s - before.snapshots.len();
                        assert(state.snapshots[s] == recorded[r]);
                        assert(recorded[r].stack == popped || recorded[r].stack == stack);
                    }
                }
            }
        }
    }

    /// Where the instructions of the body are laid out one after another,
    /// every snapshot stands at a greater offset than the one before it, and
    /// none beyond the end of the last of the first `n` instructions.
    pub proof fn lemma_offsets_rise(self, n: nat)
        requires
            n <= self.ops.len(),
            ops_ordered(self.ops),
            self.run_prefix(n) is Ok,
        ensures
            ({
                let snapshots = self.run_prefix(n)->Ok_0.snapshots;
                &&& forall|s: int, t: int|
                    0 <= s < t < snapshots.len() ==> (#[trigger] snapshots[s]).offset < (
                    #[trigger] snapshots[t]).offset
                &&& forall|s: int|
                    0 <= s < snapshots.len() ==> (#[trigger] snapshots[s]).offset <= if n > 0 {
                        self.ops[n - 1].offset_after
                    } else {
                        0
                    }
            }),
        decreases n,
    {
        if n > 0 {
            self.lemma_offsets_rise((n - 1) as nat);
            let before = self.run_prefix((n - 1) as nat)->Ok_0;
            let op = self.ops[n - 1];
            let snapshots = self.run_prefix(n)->Ok_0.snapshots;
            assert(op.offset_before < op.offset_after);
            if n > 1 {
                assert(self.ops[n - 2].offset_after <= self.ops[n - 1].offset_before);
            }
            if !before.halted {
                let recorded = self.step(before.stack, op)->Ok_0.0;
                assert forall|s: int| 0 <= s < snapshots.len() implies (#[trigger] snapshots[s]).offset
                    <= op.offset_after && (s < before.snapshots.len() ==> snapshots[s].offset
                    <= op.offset_before) && (s >= before.snapshots.len() ==> snapshots[s].offset
                    > op.offset_before) by {
                    if s < before.snapshots.len() {
                        assert(snapshots[s] == before.snapshots[s]);
                    } else {
                        assert(snapshots[s] == recorded[s - before.snapshots.len()]);
                    }
                }
                assert forall|s: int, t: int| 0 <= s < t < snapshots.len() implies (
                #[trigger] snapshots[s]).offset < (#[trigger] snapshots[t]).offset by {
                    if t < before.snapshots.len() {
                        assert(snapshots[s] == before.snapshots[s]);
                        assert(snapshots[t] == before.snapshots[t]);
                    } else if s >= before.snapshots.len() {
                        assert(snapshots[s] == recorded[s - before.snapshots.len()]);
                        assert(snapshots[t] == recorded[t - before.snapshots.len()]);
                    }
                }
            }
        }
    }

    /// `Any` is not among the types of the locals of the function, nor among
    /// the types that its module declares.
    pub open spec fn types_concrete(self) -> bool {
        concrete(self.locals) && self.module.types_concrete()
    }

    /// Where the table leaves the type of a result open, there is an operand
    /// at the same position to take the type from; every other result has a
    /// type that the function or its module declares.
    pub proof fn lemma_open_results(self, instr: Instr, j: int)
        requires
            self.module.wf(),
            self.types_concrete(),
            instr_valid(instr, self.module, self.locals),
            effect_of(instr, self.module, self.locals) matches Some(effect) && 0 <= j
                < effect.output.len(),
        ensures
            ({
                let effect = effect_of(instr, self.module, self.locals)->Some_0;
                effect.output[j] == WasmType::Any ==> j < effect.input.len()
            }),
    {
        match instr {
            Instr::Call { function_index } => {
                let sig = self.module.spec_type_by_func(function_index as int);
                assert(concrete(sig.results@));
            },
            Instr::CallIndirect { type_index } => {
                let sig = self.module.types@[type_index as int];
                assert(concrete(sig.results@));
            },
            _ => {},
        }
    }

    /// Where the function and its module declare no `Any`, no slot that the
    /// simulation records, and no slot of its stack, has the type `Any`.
    pub proof fn stacks_closed_law(self, n: nat)
        requires
            n <= self.ops.len(),
            self.wf(),
            self.types_concrete(),
            self.run_prefix(n) is Ok,
        ensures
            ({
                let state = self.run_prefix(n)->Ok_0;
                &&& forall|j: int|
                    0 <= j < state.stack.len() ==> (#[trigger] state.stack[j]).1 != WasmType::Any
                &&& forall|s: int, j: int|
                    0 <= s < state.snapshots.len() && 0 <= j < state.snapshots[s].stack.len() ==> (
                    #[trigger] state.snapshots[s].stack[j]).1 != WasmType::Any
            }),
        decreases n,
    {
        if n > 0 {
            self.stacks_closed_law((n - 1) as nat);
            let before = self.run_prefix((n - 1) as nat)->Ok_0;
            if !before.halted {
                let op = self.ops[n - 1];
                let state = self.run_prefix(n)->Ok_0;
                let (recorded, stack) = self.step(before.stack, op)->Ok_0;
                let effect = effect_of(op.instr, self.module, self.locals)->Some_0;
                let popped = apply_input(before.stack, effect)->Some_0;
                let taken = taken_by(before.stack, effect);
                assert forall|j: int| 0 <= j < popped.len() implies (#[trigger] popped[j]).1
                    != WasmType::Any by {
                    assert(popped[j] == before.stack[j]);
                }
                assert forall|j: int| 0 <= j < stack.len() implies (#[trigger] stack[j]).1
                    != WasmType::Any by {
                    if j < popped.len() {
                        assert(stack[j] == popped[j]);
                    } else {
                        let r = j - popped.len();
                        self.lemma_open_results(op.instr, r);
                        assert(stack[j].1 == pushed_type(effect, taken, r));
                        if effect.output[r] == WasmType::Any {
                            assert(taken[r] == before.stack[before.stack.len() - effect.input.len()
                                + r]);
                        }
                    }
                }
                assert forall|s: int, j: int|
                    0 <= s < state.snapshots.len() && 0 <= j
                        < state.snapshots[s].stack.len() implies (
                #[trigger] state.snapshots[s].stack[j]).1 != WasmType::Any by {
                    if s < before.snapshots.len() {
                        assert(state.snapshots[s] == before.snapshots[s]);
                    } else {
                        let r = s - before.snapshots.len();
                        assert(state.snapshots[s] == recorded[r]);
                        assert(recorded[r].stack == popped || recorded[r].stack == stack);
                    }
                }
            }
        }
    }

    /// The slot was pushed by an instruction of the body.
    pub open spec fn pushed_by_body(self, slot: Slot) -> bool {
        exists|k: int| 0 <= k < self.ops.len() && (#[trigger] self.ops[k]).instr == slot.0
    }

}

impl<'a> BytecodeFunction<'a> {
    /// The function `fidx` of `module` with the body `body`. Its locals are its
    /// parameters, then the locals that the body declares, run by run.
    pub fn new(module: &'a Module, body: &'a FuncBody, fidx: u32) -> (f: Self)
        requires
            fidx < module.funcs@.len(),
            module.funcs@[fidx as int].fidx < module.types@.len(),
        ensures
            f.module == module,
            f.body == body,
            f.fidx == fidx,
            f.locals@ == module.spec_type_by_func(fidx as int).params@ + expand_locals(
                body.locals@,
            ),
    {
        let params = &module.get_type_by_func(fidx).params;
        let mut locals: Vec<WasmType> = Vec::new();
        let mut i: usize = 0;
        while i < params.len()
            invariant
                i <= params@.len(),
                locals@ == params@.take(i as int),
            decreases params@.len() - i,
        {
            locals.push(params[i]);
            i += 1;
            assert(params@.take(i as int) == params@.take(i - 1).push(params@[i - 1]));
        }
        assert(params@.take(params@.len() as int) == params@);
        let mut k: usize = 0;
        assert(expand_locals(body.locals@.take(0)) == Seq::<WasmType>::empty());
        while k < body.locals.len()
            invariant
                k <= body.locals@.len(),
                locals@ == params@ + expand_locals(body.locals@.take(k as int)),
            decreases body.locals@.len() - k,
        {
            let (count, typ) = body.locals[k];
            let ghost before = locals@;
            let mut j: u32 = 0;
            while j < count
                invariant
                    j <= count,
                    locals@ == before + Seq::new(j as nat, |i: int| typ),
                decreases count - j,
            {
                locals.push(typ);
                j += 1;
                assert(Seq::new(j as nat, |i: int| typ) == Seq::new((j - 1) as nat, |i: int| typ).push(
                    typ,
                ));
            }
            k += 1;
            proof {
                let upto = body.locals@.take(k as int);
                assert(upto.drop_last() == body.locals@.take(k - 1));
                assert(upto.last() == (count, typ));
            }
        }
        assert(body.locals@.take(body.locals@.len() as int) == body.locals@);
        Self { module, body, fidx, locals }
    }

    /// The type of the local at `local_idx`.
    pub fn get_type_by_local(&self, local_idx: u32) -> (ty: &WasmType)
        requires
            local_idx < self.locals@.len(),
        ensures
            *ty == self.locals@[local_idx as int],
    {
        &self.locals[local_idx as usize]
    }

    /// Tests `wf`.
    pub fn is_well_formed(&self) -> (b: bool)
        ensures
            b == self@.wf(),
    {
        if !self.module.is_well_formed() {
            return false;
        }
        if self.fidx as usize >= self.module.funcs.len() {
            return false;
        }
        let ops = &self.body.ops;
        let mut i: usize = 0;
        while i < ops.len()
            invariant
                i <= ops@.len(),
                ops == &self.body.ops,
                self.module.wf(),
                forall|k: int|
                    0 <= k < i ==> instr_valid(
                        (#[trigger] ops@[k]).instr,
                        *self.module,
                        self.locals@,
                    ),
                forall|k: int|
                    0 <= k < i && (#[trigger] ops@[k]).instr.spec_is_call() ==> ops@[k].offset_before
                        < u32::MAX,
            decreases ops@.len() - i,
        {
            let op = ops[i];
            let valid = match op.instr {
                Instr::Call { function_index } => (function_index as usize)
                    < self.module.funcs.len() && op.offset_before < u32::MAX,
                Instr::CallIndirect { type_index } => (type_index as usize)
                    < self.module.types.len() && op.offset_before < u32::MAX,
                Instr::LocalGet { local_index } => (local_index as usize) < self.locals.len(),
                Instr::GlobalGet { global_index } => (global_index as usize)
                    < self.module.globals.len(),
                _ => true,
            };
            if !valid {
                return false;
            }
            i += 1;
        }
        true
    }

    /// Simulates the operand stack through the body and records it after
    /// every instruction, and once more inside every call.
    ///
    /// The result is that of `run`: the snapshots in program order up to the
    /// end of the body or the first `return`, or the first failure with the
    /// offset of the instruction that caused it.
    pub fn create_stack_table(&self) -> (r: Result<Vec<CodePos>, FunctionError>)
        requires
            self@.wf(),
        ensures
            match r {
                Ok(codes) => self@.run() == Ok::<Seq<Snapshot>, FunctionError>(snapshots_of(codes@)),
                Err(e) => self@.run() == Err::<Seq<Snapshot>, FunctionError>(e),
            },
    {
        let ops = &self.body.ops;
        let results_len = self.module.get_type_by_func(self.fidx).results.len();
        let mut stack = Stack::new();
        let mut stack_table: Vec<CodePos> = Vec::new();
        stack_table.push(CodePos::new(Instr::Nop, 0, Stack::new()));
        let mut i: usize = 0;
        assert(snapshots_of(stack_table@) == seq![entry_snapshot()]);
        while i < ops.len()
            invariant
                i <= ops@.len(),
                ops == &self.body.ops,
                self@.wf(),
                results_len == self@.result_arity(),
                self@.run_prefix(i as nat) == Ok::<SimState, FunctionError>(
                    SimState { snapshots: snapshots_of(stack_table@), stack: stack@, halted: false },
                ),
            decreases ops@.len() - i,
        {
            let op = ops[i];
            let ghost before = stack@;
            let ghost recorded = snapshots_of(stack_table@);
            let opinfo = match self.opinfo(&op.instr) {
                Ok(opinfo) => opinfo,
                Err(kind) => {
                    let e = FunctionError { offset: op.offset_before, kind };
                    proof {
                        assert(self@.run_prefix((i + 1) as nat) == Err::<SimState, FunctionError>(e));
                        self@.lemma_failure_stays((i + 1) as nat, ops@.len());
                    }
                    return Err(e);
                },
            };
            let is_return = match op.instr {
                Instr::Return => true,
                _ => false,
            };
            if is_return && stack.len() < results_len {
                let e = FunctionError {
                    offset: op.offset_before,
                    kind: AnalysisError::StackUnderflow,
                };
                proof {
                    assert(self@.run_prefix((i + 1) as nat) == Err::<SimState, FunctionError>(e));
                    self@.lemma_failure_stays((i + 1) as nat, ops@.len());
                }
                return Err(e);
            }
            let taken = match stack_apply_input(&mut stack, &opinfo) {
                Ok(taken) => taken,
                Err(kind) => {
                    let e = FunctionError { offset: op.offset_before, kind };
                    proof {
                        assert(self@.run_prefix((i + 1) as nat) == Err::<SimState, FunctionError>(e));
                        self@.lemma_failure_stays((i + 1) as nat, ops@.len());
                    }
                    return Err(e);
                },
            };
            if op.instr.is_call() {
                let call_site_offset = op.offset_before + 1;
                stack_table.push(CodePos::new(op.instr, call_site_offset, stack.copy()));
            }
            stack_apply_output(&mut stack, &op.instr, &opinfo, &taken);
            stack_table.push(CodePos::new(op.instr, op.offset_after, stack.copy()));
            proof {
                let (taken, next) = self@.step(before, op)->Ok_0;
                assert(next == stack@);
                assert(snapshots_of(stack_table@) =~= recorded + taken);
            }
            if is_return {
                proof {
                    self@.lemma_halt_stays((i + 1) as nat, ops@.len());
                }
                return Ok(stack_table);
            }
            i += 1;
        }
        Ok(stack_table)
    }
}

impl Module {
    /// The value of the function `f` of the module; `None` for an imported
    /// function.
    pub open spec fn function_view(self, f: int) -> Option<FunctionView> {
        match self.funcs@[f].body {
            None => None,
            Some(body) => Some(
                FunctionView {
                    module: self,
                    fidx: f as u32,
                    locals: self.locals_of(f),
                    ops: body.ops@,
                },
            ),
        }
    }

    /// The functions of the module, in the order of their indices.
    pub fn new_function_v2(&self) -> (funcs: Vec<Function<'_>>)
        requires
            self.valid(),
        ensures
            funcs@.len() == self.funcs@.len(),
            forall|f: int|
                0 <= f < funcs@.len() ==> (#[trigger] funcs@[f])@ == self.function_view(f)
                    && funcs@[f].wf() && funcs@[f].spec_module() == self,
    {
        let mut funcs: Vec<Function<'_>> = Vec::new();
        let mut i: usize = 0;
        while i < self.funcs.len()
            invariant
                i <= self.funcs@.len(),
                self.valid(),
                funcs@.len() == i,
                forall|f: int|
                    0 <= f < i ==> (#[trigger] funcs@[f])@ == self.function_view(f) && funcs@[f].wf()
                        && funcs@[f].spec_module() == self,
            decreases self.funcs@.len() - i,
        {
            match &self.funcs[i].body {
                Some(body) => {
                    assert(self.body_valid(i as int));
                    let f = BytecodeFunction::new(self, body, i as u32);
                    funcs.push(Function::BytecodeFunction(f));
                },
                None => {
                    let f = ImportFunction::new(self);
                    funcs.push(Function::ImportFunction(f));
                },
            }
            i += 1;
        }
        funcs
    }
}

} // verus!
