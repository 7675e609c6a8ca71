//! The interpreter: a `VM` holds the loaded constants and code; a
//! `Process` is one execution frame over it.
//!
//! `run_model` is the machine's semantics: a big-step interpreter over
//! the frame model, bounded by a step budget per frame so that every
//! execution is finite.  `Process::run` refines it exactly.

use vstd::prelude::*;
use std::io::Write;
use crate::opcode::Opcode;
use crate::value::{arith_bits, arith_commutes, arith_val, both_nan, promoted, text_of, StackVal,
    Stackable};

verus! {

/// What the interpreter reports when it halts a program.
#[derive(Clone, Copy, PartialEq, Eq, Structural, Debug)]
pub enum VmError {
    /// `Ldc` named a constant-pool index past the pool's end.
    ConstantIndexOutOfRange(usize),
    /// An instruction needed more operands than the stack holds.
    StackUnderflow,
    /// `Load` named a local variable that was never stored.
    MissingLocal(u16),
    /// `Store` or `Load` was given an index past the machine's limit of
    /// 65535.
    LocalIndexTooLarge(usize),
    /// An arithmetic instruction met a string operand.
    StringArithmetic,
    /// `Invoke` named a (name index, parameter count) pair that no `Func`
    /// registered.
    UnknownFunction(u32, u8),
    /// The frame's step budget ran out.
    StepLimit,
}

/// The mathematical state of one execution frame.
#[verifier::ext_equal]
pub struct Frame {
    /// Registered functions: signature to entry instruction index.
    pub functions: Map<FunctionSignature, u32>,
    /// The operand stack, bottom first.
    pub stack: Seq<StackVal>,
    /// The local variables.
    pub locals: Map<u16, StackVal>,
    /// The program counter: an instruction index.
    pub pc: u32,
    /// The lines printed so far, oldest first.
    pub output: Seq<Seq<char>>,
}

/// What one instruction does to a frame.
pub enum StepRes {
    /// The frame after the instruction, program counter already advanced.
    Next(Frame),
    /// The instruction ended the frame.
    Ret(Frame),
    /// The instruction halted the machine.
    Fault(VmError),
}

/// Where a `Func` body ends: the index of the `Return` matching the
/// definition, tracking nested definitions, or the code's end if there is
/// none.
pub open spec fn skip_body(code: Seq<Opcode>, i: int, depth: int) -> int
    decreases code.len() - i,
{
    if i < 0 || i >= code.len() {
        i
    } else {
        match code[i] {
            Opcode::Func(_, _) => skip_body(code, i + 1, depth + 1),
            Opcode::Return => if depth == 0 {
                i
            } else {
                skip_body(code, i + 1, depth - 1)
            },
            _ => skip_body(code, i + 1, depth),
        }
    }
}

/// One instruction of a frame, other than `Return` and `Invoke` (the
/// run relation treats those two itself).
pub open spec fn step(consts: Seq<StackVal>, code: Seq<Opcode>, f: Frame) -> StepRes
    recommends
        f.pc < code.len(),
{
    let n = f.stack.len() as int;
    match code[f.pc as int] {
        Opcode::Ldc(i) => if i < consts.len() {
            StepRes::Next(
                Frame { stack: f.stack.push(consts[i as int]), pc: (f.pc + 1) as u32, ..f },
            )
        } else {
            StepRes::Fault(VmError::ConstantIndexOutOfRange(i as usize))
        },
        Opcode::Dump => if f.stack.len() >= 1 {
            StepRes::Next(
                Frame {
                    stack: f.stack.drop_last(),
                    output: f.output.push(text_of(f.stack.last())),
                    pc: (f.pc + 1) as u32,
                    ..f
                },
            )
        } else {
            StepRes::Fault(VmError::StackUnderflow)
        },
        Opcode::Add | Opcode::Sub | Opcode::Mul | Opcode::Div | Opcode::Mod => {
            if f.stack.len() < 2 {
                StepRes::Fault(VmError::StackUnderflow)
            } else if f.stack.last() is Str || f.stack[n - 2] is Str {
                StepRes::Fault(VmError::StringArithmetic)
            } else {
                StepRes::Next(
                    Frame {
                        stack: f.stack.take(n - 2).push(
                            arith_val(code[f.pc as int], f.stack.last(), f.stack[n - 2]),
                        ),
                        pc: (f.pc + 1) as u32,
                        ..f
                    },
                )
            }
        },
        Opcode::Dup => if f.stack.len() >= 1 {
            StepRes::Next(Frame { stack: f.stack.push(f.stack.last()), pc: (f.pc + 1) as u32, ..f })
        } else {
            StepRes::Fault(VmError::StackUnderflow)
        },
        Opcode::Swp => if f.stack.len() >= 2 {
            StepRes::Next(
                Frame {
                    stack: f.stack.take(n - 2).push(f.stack.last()).push(f.stack[n - 2]),
                    pc: (f.pc + 1) as u32,
                    ..f
                },
            )
        } else {
            StepRes::Fault(VmError::StackUnderflow)
        },
        Opcode::Store(k) => if f.stack.len() >= 1 {
            StepRes::Next(
                Frame {
                    stack: f.stack.drop_last(),
                    locals: f.locals.insert(k, f.stack.last()),
                    pc: (f.pc + 1) as u32,
                    ..f
                },
            )
        } else {
            StepRes::Fault(VmError::StackUnderflow)
        },
        Opcode::Load(k) => if f.locals.dom().contains(k) {
            StepRes::Next(Frame { stack: f.stack.push(f.locals[k]), pc: (f.pc + 1) as u32, ..f })
        } else {
            StepRes::Fault(VmError::MissingLocal(k))
        },
        Opcode::Goto(t) => StepRes::Next(Frame { pc: t, ..f }),
        Opcode::Nop => StepRes::Next(Frame { pc: (f.pc + 1) as u32, ..f }),
        Opcode::Func(name_idx, p) => {
            let sig = FunctionSignature { function_name_index: name_idx, parameter_size: p };
            let end = skip_body(code, f.pc + 1, 0);
            StepRes::Next(
                Frame {
                    functions: f.functions.insert(sig, (f.pc + 1) as u32),
                    pc: if end < code.len() {
                        (end + 1) as u32
                    } else {
                        end as u32
                    },
                    ..f
                },
            )
        },
        Opcode::Return => StepRes::Ret(f),
        Opcode::Invoke(_, _) => StepRes::Ret(f),
    }
}

/// How a frame's run ends.
pub enum Run {
    /// The frame reached `Return` (its stack is the result) or walked
    /// past the last instruction (an empty result); `output` is every
    /// line it and its children printed.
    Done { stack: Seq<StackVal>, output: Seq<Seq<char>> },
    /// The machine halted on an error.
    Fault(VmError),
    /// The step budget ran out before the frame ended.
    OutOfFuel,
}

/// Run a frame to completion, spending one unit of budget per executed
/// instruction.  An `Invoke` runs the callee as a child frame on the
/// remaining budget: the callee starts at the registered entry with the
/// popped arguments (push order preserved) and copies of the caller's
/// function table and locals; its result stack and output are appended
/// to the caller's on return.
pub open spec fn run_model(consts: Seq<StackVal>, code: Seq<Opcode>, f: Frame, fuel: nat) -> Run
    decreases fuel,
{
    if f.pc >= code.len() {
        Run::Done { stack: Seq::empty(), output: f.output }
    } else if fuel == 0 {
        Run::OutOfFuel
    } else {
        match code[f.pc as int] {
            Opcode::Return => Run::Done { stack: f.stack, output: f.output },
            Opcode::Invoke(name_idx, p) => {
                let sig = FunctionSignature { function_name_index: name_idx, parameter_size: p };
                if !f.functions.dom().contains(sig) {
                    Run::Fault(VmError::UnknownFunction(name_idx, p))
                } else if f.stack.len() < p {
                    Run::Fault(VmError::StackUnderflow)
                } else {
                    let n = f.stack.len() as int;
                    let child = Frame {
                        functions: f.functions,
                        stack: f.stack.skip(n - p),
                        locals: f.locals,
                        pc: f.functions[sig],
                        output: Seq::empty(),
                    };
                    match run_model(consts, code, child, (fuel - 1) as nat) {
                        Run::Done { stack: child_stack, output: child_output } => run_model(
                            consts,
                            code,
                            Frame {
                                stack: f.stack.take(n - p) + child_stack,
                                output: f.output + child_output,
                                pc: (f.pc + 1) as u32,
                                ..f
                            },
                            (fuel - 1) as nat,
                        ),
                        other => other,
                    }
                }
            },
            _ => match step(consts, code, f) {
                StepRes::Next(f2) => run_model(consts, code, f2, (fuel - 1) as nat),
                StepRes::Ret(f2) => Run::Done { stack: f2.stack, output: f2.output },
                StepRes::Fault(e) => Run::Fault(e),
            },
        }
    }
}

/// The map an association list denotes: a later entry for a key
/// overrides an earlier one.
pub open spec fn assoc_map<K, V>(entries: Seq<(K, V)>) -> Map<K, V>
    decreases entries.len(),
{
    if entries.len() == 0 {
        Map::empty()
    } else {
        assoc_map(entries.drop_last()).insert(entries.last().0, entries.last().1)
    }
}

pub proof fn lemma_assoc_map_found<K, V>(entries: Seq<(K, V)>, key: K, i: int)
    requires
        0 <= i < entries.len(),
        entries[i].0 == key,
        forall|j: int| i < j < entries.len() ==> (#[trigger] entries[j]).0 != key,
    ensures
        assoc_map(entries).dom().contains(key),
        assoc_map(entries)[key] == entries[i].1,
    decreases entries.len(),
{
    if i < entries.len() - 1 {
        assert(entries.drop_last()[i] == entries[i]);
        lemma_assoc_map_found(entries.drop_last(), key, i);
    }
}

pub proof fn lemma_assoc_map_absent<K, V>(entries: Seq<(K, V)>, key: K)
    requires
        forall|j: int| 0 <= j < entries.len() ==> (#[trigger] entries[j]).0 != key,
    ensures
        !assoc_map(entries).dom().contains(key),
    decreases entries.len(),
{
    if entries.len() > 0 {
        lemma_assoc_map_absent(entries.drop_last(), key);
    }
}

/// The decoded instruction sequence of an image.
#[derive(Debug)]
pub struct Code {
    instructions: Vec<Opcode>,
}

impl View for Code {
    type V = Seq<Opcode>;

    closed spec fn view(&self) -> Seq<Opcode> {
        self.instructions@
    }
}

impl Code {
    pub fn new(instructions: Vec<Opcode>) -> (r: Self)
        ensures
            r@ == instructions@,
    {
        Self { instructions }
    }
}

/// A function's identity at run time: the constant-pool index of its
/// name, and its parameter count.
#[derive(Clone, Copy, PartialEq, Eq, Hash, Structural, Debug)]
pub struct FunctionSignature {
    pub function_name_index: u32,
    pub parameter_size: u8,
}

/// The loaded machine: an immutable constant pool and code vector,
/// shared read-only by every frame.
#[derive(Debug)]
pub struct VM {
    constants: Vec<Stackable>,
    code: Code,
}

impl VM {
    /// The constant pool, as mathematical values.
    pub closed spec fn constants_view(self) -> Seq<StackVal> {
        self.constants.deep_view()
    }

    /// The decoded code.
    pub closed spec fn code_view(self) -> Seq<Opcode> {
        self.code@
    }

    /// The code fits the wire format's u32 instruction count, which keeps
    /// the program counter's arithmetic in range.
    pub open spec fn wf(self) -> bool {
        self.code_view().len() <= u32::MAX
    }

    pub fn new_vm(constants: Vec<Stackable>, code: Code) -> (r: Self)
        requires
            code@.len() <= u32::MAX,
        ensures
            r.constants_view() == constants.deep_view(),
            r.code_view() == code@,
            r.wf(),
    {
        VM { constants, code }
    }

    /// Run the program from instruction 0 in a fresh root frame, with the
    /// largest step budget the machine offers.  On success, yield the
    /// frame's result stack and every line `Dump` printed.
    pub fn execute(self) -> (r: Result<(Vec<Stackable>, Vec<String>), VmError>)
        requires
            self.wf(),
        ensures
            match run_model(
                self.constants_view(),
                self.code_view(),
                init_frame(0),
                u64::MAX as nat,
            ) {
                Run::Done { stack, output } => r matches Ok(p) && p.0.deep_view() == stack
                    && p.1.deep_view() == output,
                Run::Fault(e) => r matches Err(x) && x == e,
                Run::OutOfFuel => r matches Err(x) && x == VmError::StepLimit,
            },
    {
        let main_proc = Process::new_process(&self, 0);
        main_proc.run(u64::MAX)
    }
}

/// The frame a fresh process starts in: empty everything, at `pos`.
pub open spec fn init_frame(pos: u32) -> Frame {
    Frame {
        functions: Map::empty(),
        stack: Seq::empty(),
        locals: Map::empty(),
        pc: pos,
        output: Seq::empty(),
    }
}

/// The pairs of an association list of locals, values abstracted.
pub open spec fn locals_dv(entries: Seq<(u16, Stackable)>) -> Seq<(u16, StackVal)> {
    entries.map_values(|p: (u16, Stackable)| (p.0, p.1@))
}

/// Every `Func` body ends at or after its start, and no later than the
/// code's end.
pub proof fn lemma_skip_body_range(code: Seq<Opcode>, i: int, depth: int)
    requires
        0 <= i <= code.len(),
    ensures
        i <= skip_body(code, i, depth) <= code.len(),
    decreases code.len() - i,
{
    if i < code.len() {
        match code[i] {
            Opcode::Func(_, _) => lemma_skip_body_range(code, i + 1, depth + 1),
            Opcode::Return => {
                if depth != 0 {
                    lemma_skip_body_range(code, i + 1, depth - 1);
                }
            },
            _ => lemma_skip_body_range(code, i + 1, depth),
        }
    }
}

/// Relies on `std::io::Stdout`: writes the line to standard output.
#[verifier::external_body]
fn print_line(s: &String) {
    let _ = writeln!(std::io::stdout(), "{}", s);
}

fn clone_table(v: &Vec<(FunctionSignature, u32)>) -> (r: Vec<(FunctionSignature, u32)>)
    ensures
        r@ == v@,
{
    let mut r: Vec<(FunctionSignature, u32)> = Vec::new();
    let n = v.len();
    let mut i: usize = 0;
    while i < n
        invariant
            n == v@.len(),
            0 <= i <= n,
            r@ == v@.take(i as int),
        decreases n - i,
    {
        r.push(v[i]);
        proof {
            assert(v@.take(i + 1) =~= v@.take(i as int).push(v@[i as int]));
        }
        i = i + 1;
    }
    proof {
        assert(v@.take(n as int) =~= v@);
    }
    r
}

fn clone_locals(v: &Vec<(u16, Stackable)>) -> (r: Vec<(u16, Stackable)>)
    ensures
        locals_dv(r@) == locals_dv(v@),
{
    let mut r: Vec<(u16, Stackable)> = Vec::new();
    let n = v.len();
    let mut i: usize = 0;
    while i < n
        invariant
            n == v@.len(),
            0 <= i <= n,
            locals_dv(r@) == locals_dv(v@).take(i as int),
        decreases n - i,
    {
        let entry = (v[i].0, v[i].1.clone());
        let ghost dv = (entry.0, entry.1@);
        r.push(entry);
        proof {
            assert(locals_dv(r@) =~= locals_dv(v@).take(i as int).push(dv));
            assert(locals_dv(v@).take(i + 1) =~= locals_dv(v@).take(i as int).push(dv));
        }
        i = i + 1;
    }
    proof {
        assert(locals_dv(v@).take(n as int) =~= locals_dv(v@));
    }
    r
}

/// One execution frame: a program counter, an operand stack, local
/// variables, and the functions registered so far, over a shared
/// read-only machine.  The function table and the locals are
/// association lists read through `assoc_map`: a later entry for a key
/// overrides an earlier one, which is exactly map insertion, and
/// neither table is ever iterated.
pub struct Process<'a> {
    vm: &'a VM,
    functions: Vec<(FunctionSignature, u32)>,
    stack: Vec<Stackable>,
    local_variable: Vec<(u16, Stackable)>,
    pos: u32,
    output: Vec<String>,
}

impl<'a> Process<'a> {
    /// The machine this frame runs over.
    pub closed spec fn machine(self) -> VM {
        *self.vm
    }

    /// The frame's mathematical state.
    pub closed spec fn frame(self) -> Frame {
        Frame {
            functions: assoc_map(self.functions@),
            stack: self.stack.deep_view(),
            locals: assoc_map(locals_dv(self.local_variable@)),
            pc: self.pos,
            output: self.output.deep_view(),
        }
    }

    /// A fresh frame over the machine, starting at `pos`.
    pub fn new_process(vm: &'a VM, pos: u32) -> (r: Self)
        ensures
            r.machine() == *vm,
            r.frame() == init_frame(pos),
    {
        let r = Process {
            vm,
            functions: Vec::new(),
            stack: Vec::new(),
            local_variable: Vec::new(),
            pos,
            output: Vec::new(),
        };
        proof {
            assert(r.frame() =~= init_frame(pos));
        }
        r
    }

    /// A child frame for a call: same machine, copies of this frame's
    /// function table and locals, the given arguments as its whole
    /// operand stack, starting at `pos` with no output yet.
    pub fn subprocess(&self, pos: u32, parameters: Vec<Stackable>) -> (r: Process<'a>)
        ensures
            r.machine() == self.machine(),
            r.frame() == (Frame {
                functions: self.frame().functions,
                stack: parameters.deep_view(),
                locals: self.frame().locals,
                pc: pos,
                output: Seq::empty(),
            }),
    {
        let r = Process {
            vm: self.vm,
            functions: clone_table(&self.functions),
            stack: parameters,
            local_variable: clone_locals(&self.local_variable),
            pos,
            output: Vec::new(),
        };
        proof {
            assert(r.frame() =~= Frame {
                functions: self.frame().functions,
                stack: r.stack.deep_view(),
                locals: self.frame().locals,
                pc: pos,
                output: Seq::empty(),
            });
        }
        r
    }

    /// The registered entry index for a signature, if any.
    fn lookup_function(&self, sig: FunctionSignature) -> (r: Option<u32>)
        ensures
            match r {
                Some(entry) => self.frame().functions.dom().contains(sig) && entry
                    == self.frame().functions[sig],
                None => !self.frame().functions.dom().contains(sig),
            },
    {
        let n = self.functions.len();
        let mut i: usize = n;
        while i > 0
            invariant
                n == self.functions@.len(),
                0 <= i <= n,
                forall|j: int| i <= j < n ==> (#[trigger] self.functions@[j]).0 != sig,
            decreases i,
        {
            i = i - 1;
            let entry = self.functions[i];
            if entry.0 == sig {
                proof {
                    lemma_assoc_map_found(self.functions@, sig, i as int);
                }
                return Some(entry.1);
            }
        }
        proof {
            lemma_assoc_map_absent(self.functions@, sig);
        }
        None
    }

    /// The value of a local variable, if it was ever stored.
    fn lookup_local(&self, key: u16) -> (r: Option<Stackable>)
        ensures
            match r {
                Some(v) => self.frame().locals.dom().contains(key) && v@
                    == self.frame().locals[key],
                None => !self.frame().locals.dom().contains(key),
            },
    {
        let n = self.local_variable.len();
        let mut i: usize = n;
        while i > 0
            invariant
                n == self.local_variable@.len(),
                0 <= i <= n,
                forall|j: int| i <= j < n ==> (#[trigger] locals_dv(self.local_variable@)[j]).0
                    != key,
            decreases i,
        {
            i = i - 1;
            if self.local_variable[i].0 == key {
                let v = self.local_variable[i].1.clone();
                proof {
                    lemma_assoc_map_found(locals_dv(self.local_variable@), key, i as int);
                }
                return Some(v);
            }
            proof {
                assert((locals_dv(self.local_variable@)[i as int]).0 != key);
            }
        }
        proof {
            lemma_assoc_map_absent(locals_dv(self.local_variable@), key);
        }
        None
    }

    /// Copies of the topmost `p` stack values, in stack order.
    fn stack_tail(&self, p: usize) -> (r: Vec<Stackable>)
        requires
            p <= self.frame().stack.len(),
        ensures
            r.deep_view() == self.frame().stack.skip(self.frame().stack.len() - p),
    {
        let n = self.stack.len();
        let base = n - p;
        let mut r: Vec<Stackable> = Vec::new();
        let mut i: usize = base;
        while i < n
            invariant
                n == self.stack@.len(),
                base == n - p,
                base <= i <= n,
                r.deep_view() == self.stack.deep_view().subrange(base as int, i as int),
            decreases n - i,
        {
            let v = self.stack[i].clone();
            let ghost dv = v@;
            let ghost pre = r.deep_view();
            r.push(v);
            proof {
                assert(dv == self.stack.deep_view()[i as int]);
                assert(r.deep_view() =~= pre.push(dv));
                assert(r.deep_view() =~= self.stack.deep_view().subrange(base as int, i + 1));
            }
            i = i + 1;
        }
        proof {
            assert(self.stack.deep_view().subrange(base as int, n as int)
                =~= self.frame().stack.skip(self.frame().stack.len() - p));
        }
        r
    }

    /// Push the constant at `index`; an index past the pool is a fault.
    pub fn ldc(&mut self, index: usize) -> (r: Result<(), VmError>)
        ensures
            final(self).machine() == old(self).machine(),
            ({
                let f = old(self).frame();
                let cs = old(self).machine().constants_view();
                if index < cs.len() {
                    &&& r is Ok
                    &&& final(self).frame() == (Frame { stack: f.stack.push(cs[index as int]), ..f })
                } else {
                    &&& r == Err::<(), VmError>(VmError::ConstantIndexOutOfRange(index))
                    &&& final(self).frame() == f
                }
            }),
    {
        if index < self.vm.constants.len() {
            let c = self.vm.constants[index].clone();
            let ghost cv = c@;
            self.stack.push(c);
            proof {
                assert(self.stack.deep_view() =~= old(self).stack.deep_view().push(cv));
                assert(self.frame() =~= (Frame {
                    stack: old(self).frame().stack.push(
                        old(self).machine().constants_view()[index as int],
                    ),
                    ..old(self).frame()
                }));
            }
            Ok(())
        } else {
            Err(VmError::ConstantIndexOutOfRange(index))
        }
    }

    /// Pop the top of the stack, print it, and record the line.
    pub fn dump(&mut self) -> (r: Result<(), VmError>)
        ensures
            final(self).machine() == old(self).machine(),
            ({
                let f = old(self).frame();
                if f.stack.len() >= 1 {
                    &&& r is Ok
                    &&& final(self).frame() == (Frame {
                        stack: f.stack.drop_last(),
                        output: f.output.push(text_of(f.stack.last())),
                        ..f
                    })
                } else {
                    &&& r == Err::<(), VmError>(VmError::StackUnderflow)
                    &&& final(self).frame() == f
                }
            }),
    {
        match self.stack.pop() {
            Some(item) => {
                let line = item.render();
                let ghost lv = line@;
                print_line(&line);
                self.output.push(line);
                proof {
                    assert(self.stack.deep_view() =~= old(self).stack.deep_view().drop_last());
                    assert(self.output.deep_view() =~= old(self).output.deep_view().push(lv));
                    assert(self.frame() =~= (Frame {
                        stack: old(self).frame().stack.drop_last(),
                        output: old(self).frame().output.push(
                            text_of(old(self).frame().stack.last()),
                        ),
                        ..old(self).frame()
                    }));
                }
                Ok(())
            },
            None => Err(VmError::StackUnderflow),
        }
    }

    /// Pop two operands, promote them, apply the operation in binary64,
    /// and push the result narrowed back to the common precedence.  For
    /// `Add` and `Mul` the pushed value does not depend on the operands'
    /// order, unless both widen to NaNs.
    fn arith_op(&mut self, op: Opcode) -> (r: Result<(), VmError>)
        requires
            op is Add || op is Sub || op is Mul || op is Div || op is Mod,
        ensures
            final(self).machine() == old(self).machine(),
            ({
                let f = old(self).frame();
                let n = f.stack.len() as int;
                if f.stack.len() < 2 {
                    &&& r == Err::<(), VmError>(VmError::StackUnderflow)
                    &&& final(self).frame() == f
                } else if f.stack.last() is Str || f.stack[n - 2] is Str {
                    &&& r == Err::<(), VmError>(VmError::StringArithmetic)
                    &&& final(self).frame() == f
                } else {
                    &&& r is Ok
                    &&& final(self).frame() == (Frame {
                        stack: f.stack.take(n - 2).push(
                            arith_val(op, f.stack.last(), f.stack[n - 2]),
                        ),
                        ..f
                    })
                    &&& (op is Add || op is Mul) ==> arith_commutes(
                        op,
                        f.stack.last(),
                        f.stack[n - 2],
                    )
                }
            }),
    {
        let len = self.stack.len();
        if len < 2 {
            return Err(VmError::StackUnderflow);
        }
        if self.stack[len - 1].is_string() || self.stack[len - 2].is_string() {
            return Err(VmError::StringArithmetic);
        }
        let top = self.stack.pop().unwrap();
        let below = self.stack.pop().unwrap();
        let ghost tv = top@;
        let ghost bv = below@;
        let (promoted_below, promoted_top, precedence) = Stackable::promote(below, top);
        proof {
            assert(!(promoted_top@ is Str));
            assert(!(promoted_below@ is Str));
        }
        let d_top = promoted_top.to_double_bits();
        let d_below = promoted_below.to_double_bits();
        let result_bits = crate::value::apply_arith(&op, d_top, d_below);
        let result = Stackable::from_double_bits(precedence, result_bits);
        let ghost rv = result@;
        self.stack.push(result);
        proof {
            assert(rv == arith_val(op, tv, bv));
            if op is Add || op is Mul {
                assert(promoted(tv, bv).2 == promoted(bv, tv).2);
                if !both_nan(tv, bv) {
                    assert(arith_bits(op, tv, bv) == arith_bits(op, bv, tv));
                    assert(arith_val(op, tv, bv) == arith_val(op, bv, tv));
                }
                assert(arith_commutes(op, tv, bv));
            }
            assert(self.stack.deep_view() =~= old(self).stack.deep_view().take(
                old(self).stack.deep_view().len() - 2,
            ).push(rv));
            assert(self.frame() =~= (Frame {
                stack: old(self).frame().stack.take(old(self).frame().stack.len() - 2).push(
                    arith_val(op, old(self).frame().stack.last(), old(self).frame().stack[
                    old(self).frame().stack.len() - 2]),
                ),
                ..old(self).frame()
            }));
        }
        Ok(())
    }

    /// Addition; the pushed value does not depend on the order of the
    /// two operands, unless both widen to NaN bit patterns.
    pub fn add(&mut self) -> (r: Result<(), VmError>)
        ensures
            final(self).machine() == old(self).machine(),
            arith_post(old(self).frame(), final(self).frame(), Opcode::Add, r),
            r is Ok ==> arith_commutes(
                Opcode::Add,
                old(self).frame().stack.last(),
                old(self).frame().stack[old(self).frame().stack.len() - 2],
            ),
    {
        self.arith_op(Opcode::Add)
    }

    pub fn sub(&mut self) -> (r: Result<(), VmError>)
        ensures
            final(self).machine() == old(self).machine(),
            arith_post(old(self).frame(), final(self).frame(), Opcode::Sub, r),
    {
        self.arith_op(Opcode::Sub)
    }

    /// Multiplication; the pushed value does not depend on the order of
    /// the two operands, unless both widen to NaN bit patterns.
    pub fn mul(&mut self) -> (r: Result<(), VmError>)
        ensures
            final(self).machine() == old(self).machine(),
            arith_post(old(self).frame(), final(self).frame(), Opcode::Mul, r),
            r is Ok ==> arith_commutes(
                Opcode::Mul,
                old(self).frame().stack.last(),
                old(self).frame().stack[old(self).frame().stack.len() - 2],
            ),
    {
        self.arith_op(Opcode::Mul)
    }

    pub fn div(&mut self) -> (r: Result<(), VmError>)
        ensures
            final(self).machine() == old(self).machine(),
            arith_post(old(self).frame(), final(self).frame(), Opcode::Div, r),
    {
        self.arith_op(Opcode::Div)
    }

    pub fn modulo(&mut self) -> (r: Result<(), VmError>)
        ensures
            final(self).machine() == old(self).machine(),
            arith_post(old(self).frame(), final(self).frame(), Opcode::Mod, r),
    {
        self.arith_op(Opcode::Mod)
    }

    /// Duplicate the top of the stack.
    pub fn dup(&mut self) -> (r: Result<(), VmError>)
        ensures
            final(self).machine() == old(self).machine(),
            ({
                let f = old(self).frame();
                if f.stack.len() >= 1 {
                    &&& r is Ok
                    &&& final(self).frame() == (Frame { stack: f.stack.push(f.stack.last()), ..f })
                } else {
                    &&& r == Err::<(), VmError>(VmError::StackUnderflow)
                    &&& final(self).frame() == f
                }
            }),
    {
        let len = self.stack.len();
        if len < 1 {
            return Err(VmError::StackUnderflow);
        }
        let stackable = self.stack[len - 1].clone();
        let ghost dv = stackable@;
        self.stack.push(stackable);
        proof {
            assert(self.stack.deep_view() =~= old(self).stack.deep_view().push(
                old(self).frame().stack.last(),
            ));
            assert(self.frame() =~= (Frame {
                stack: old(self).frame().stack.push(old(self).frame().stack.last()),
                ..old(self).frame()
            }));
        }
        Ok(())
    }

    /// Swap the two topmost stack values.
    pub fn swp(&mut self) -> (r: Result<(), VmError>)
        ensures
            final(self).machine() == old(self).machine(),
            ({
                let f = old(self).frame();
                let n = f.stack.len() as int;
                if f.stack.len() >= 2 {
                    &&& r is Ok
                    &&& final(self).frame() == (Frame {
                        stack: f.stack.take(n - 2).push(f.stack.last()).push(f.stack[n - 2]),
                        ..f
                    })
                } else {
                    &&& r == Err::<(), VmError>(VmError::StackUnderflow)
                    &&& final(self).frame() == f
                }
            }),
    {
        let len = self.stack.len();
        if len < 2 {
            return Err(VmError::StackUnderflow);
        }
        let top = self.stack.pop().unwrap();
        let below = self.stack.pop().unwrap();
        self.stack.push(top);
        self.stack.push(below);
        proof {
            let f = old(self).frame();
            let n = f.stack.len() as int;
            assert(self.stack.deep_view() =~= f.stack.take(n - 2).push(f.stack.last()).push(
                f.stack[n - 2],
            ));
            assert(self.frame() =~= (Frame {
                stack: f.stack.take(n - 2).push(f.stack.last()).push(f.stack[n - 2]),
                ..f
            }));
        }
        Ok(())
    }

    /// Pop the top of the stack into local `index`; past 65535 the
    /// machine refuses the index.
    pub fn store(&mut self, index: usize) -> (r: Result<(), VmError>)
        ensures
            final(self).machine() == old(self).machine(),
            ({
                let f = old(self).frame();
                if f.stack.len() < 1 {
                    &&& r == Err::<(), VmError>(VmError::StackUnderflow)
                    &&& final(self).frame() == f
                } else if index > 65535 {
                    &&& r == Err::<(), VmError>(VmError::LocalIndexTooLarge(index))
                    &&& final(self).frame() == f
                } else {
                    &&& r is Ok
                    &&& final(self).frame() == (Frame {
                        stack: f.stack.drop_last(),
                        locals: f.locals.insert(index as u16, f.stack.last()),
                        ..f
                    })
                }
            }),
    {
        let len = self.stack.len();
        if len < 1 {
            return Err(VmError::StackUnderflow);
        }
        if index > 65535 {
            return Err(VmError::LocalIndexTooLarge(index));
        }
        let stackable = self.stack.pop().unwrap();
        let ghost dv = stackable@;
        let key = index as u16;
        self.local_variable.push((key, stackable));
        proof {
            let entries = locals_dv(old(self).local_variable@);
            assert(locals_dv(self.local_variable@) =~= entries.push((key, dv)));
            assert(entries.push((key, dv)).drop_last() =~= entries);
            assert(self.frame() =~= (Frame {
                stack: old(self).frame().stack.drop_last(),
                locals: old(self).frame().locals.insert(key, old(self).frame().stack.last()),
                ..old(self).frame()
            }));
        }
        Ok(())
    }

    /// Push the value of local `index`; a local never stored, or an index
    /// past 65535, is a fault.
    pub fn load(&mut self, index: usize) -> (r: Result<(), VmError>)
        ensures
            final(self).machine() == old(self).machine(),
            ({
                let f = old(self).frame();
                if index > 65535 {
                    &&& r == Err::<(), VmError>(VmError::LocalIndexTooLarge(index))
                    &&& final(self).frame() == f
                } else if f.locals.dom().contains(index as u16) {
                    &&& r is Ok
                    &&& final(self).frame() == (Frame {
                        stack: f.stack.push(f.locals[index as u16]),
                        ..f
                    })
                } else {
                    &&& r == Err::<(), VmError>(VmError::MissingLocal(index as u16))
                    &&& final(self).frame() == f
                }
            }),
    {
        if index > 65535 {
            return Err(VmError::LocalIndexTooLarge(index));
        }
        let key = index as u16;
        match self.lookup_local(key) {
            Some(stackable) => {
                let ghost dv = stackable@;
                self.stack.push(stackable);
                proof {
                    assert(self.stack.deep_view() =~= old(self).stack.deep_view().push(dv));
                    assert(self.frame() =~= (Frame {
                        stack: old(self).frame().stack.push(old(self).frame().locals[key]),
                        ..old(self).frame()
                    }));
                }
                Ok(())
            },
            None => Err(VmError::MissingLocal(key)),
        }
    }

    /// Set the program counter to `index`.
    pub fn goto(&mut self, index: u32)
        ensures
            final(self).machine() == old(self).machine(),
            final(self).frame() == (Frame { pc: index, ..old(self).frame() }),
    {
        self.pos = index;
        proof {
            assert(self.frame() =~= (Frame { pc: index, ..old(self).frame() }));
        }
    }

    /// Register the function starting at the next instruction, then move
    /// the program counter onto the `Return` that closes its body (or the
    /// code's end), so the body is skipped, not executed.
    pub fn func(&mut self, function_name_index: u32, parameter_size: u8)
        requires
            old(self).machine().wf(),
            old(self).frame().pc < old(self).machine().code_view().len(),
        ensures
            final(self).machine() == old(self).machine(),
            final(self).frame() == (Frame {
                functions: old(self).frame().functions.insert(
                    FunctionSignature { function_name_index, parameter_size },
                    (old(self).frame().pc + 1) as u32,
                ),
                pc: skip_body(
                    old(self).machine().code_view(),
                    old(self).frame().pc + 1,
                    0,
                ) as u32,
                ..old(self).frame()
            }),
    {
        let sig = FunctionSignature { function_name_index, parameter_size };
        let entry = self.pos + 1;
        self.functions.push((sig, entry));
        proof {
            assert(self.functions@.drop_last() =~= old(self).functions@);
        }
        let ghost gcode = self.machine().code_view();
        let ghost start = self.pos + 1;
        let len = self.vm.code.instructions.len();
        let len32 = len as u32;

        let mut func_level: u64 = 0;
        self.pos = self.pos + 1;

        proof {
            lemma_skip_body_range(gcode, start, 0);
        }
        while self.pos < len32
            invariant
                self.vm == old(self).vm,
                gcode == old(self).machine().code_view(),
                gcode.len() <= u32::MAX,
                len32 as int == gcode.len(),
                start == old(self).frame().pc + 1,
                entry as int == start,
                sig == (FunctionSignature { function_name_index, parameter_size }),
                self.functions@ == old(self).functions@.push((sig, entry)),
                self.stack@ == old(self).stack@,
                self.local_variable@ == old(self).local_variable@,
                self.output@ == old(self).output@,
                start <= self.pos <= len32,
                func_level as int <= self.pos - start,
                skip_body(gcode, start, 0) == skip_body(gcode, self.pos as int, func_level as int),
            ensures
                self.vm == old(self).vm,
                gcode == old(self).machine().code_view(),
                self.functions@ == old(self).functions@.push((sig, entry)),
                self.stack@ == old(self).stack@,
                self.local_variable@ == old(self).local_variable@,
                self.output@ == old(self).output@,
                self.pos as int == skip_body(gcode, start, 0),
            decreases len32 - self.pos,
        {
            let opcode = self.vm.code.instructions[self.pos as usize];
            match opcode {
                Opcode::Func(_, _) => {
                    func_level = func_level + 1;
                },
                Opcode::Return => {
                    if func_level == 0 {
                        break ;
                    } else {
                        func_level = func_level - 1;
                    }
                },
                _ => {},
            }
            self.pos = self.pos + 1;
        }
        proof {
            assert(self.frame() =~= (Frame {
                functions: old(self).frame().functions.insert(sig, entry),
                pc: skip_body(gcode, start, 0) as u32,
                ..old(self).frame()
            }));
        }
    }

    /// Pop and return the top of the stack, if any.
    pub fn return_top(&mut self) -> (r: Option<Stackable>)
        ensures
            final(self).machine() == old(self).machine(),
            ({
                let f = old(self).frame();
                if f.stack.len() >= 1 {
                    &&& r matches Some(v) && v@ == f.stack.last()
                    &&& final(self).frame() == (Frame { stack: f.stack.drop_last(), ..f })
                } else {
                    &&& r is None
                    &&& final(self).frame() == f
                }
            }),
    {
        let r = self.stack.pop();
        proof {
            if old(self).stack@.len() > 0 {
                assert(self.stack.deep_view() =~= old(self).frame().stack.drop_last());
                assert(self.frame() =~= (Frame {
                    stack: old(self).frame().stack.drop_last(),
                    ..old(self).frame()
                }));
            } else {
                assert(self.frame() =~= old(self).frame());
            }
        }
        r
    }

    /// Call a registered function: pop its arguments, run a child frame
    /// at its entry on the given budget, and append the child's result
    /// stack and output.  The program counter stays at the `Invoke`.
    pub fn invoke(&mut self, function_name_index: u32, parameter_size: u8, fuel: u64) -> (r: Result<
        (),
        VmError,
    >)
        requires
            old(self).machine().wf(),
        ensures
            final(self).machine() == old(self).machine(),
            ({
                let f = old(self).frame();
                let cs = old(self).machine().constants_view();
                let code = old(self).machine().code_view();
                let sig = FunctionSignature { function_name_index, parameter_size };
                let n = f.stack.len() as int;
                if !f.functions.dom().contains(sig) {
                    &&& r == Err::<(), VmError>(
                        VmError::UnknownFunction(function_name_index, parameter_size),
                    )
                    &&& final(self).frame() == f
                } else if f.stack.len() < parameter_size {
                    &&& r == Err::<(), VmError>(VmError::StackUnderflow)
                    &&& final(self).frame() == f
                } else {
                    match run_model(cs, code, invoke_child(f, sig), fuel as nat) {
                        Run::Done { stack: child_stack, output: child_output } => {
                            &&& r is Ok
                            &&& final(self).frame() == (Frame {
                                stack: f.stack.take(n - parameter_size) + child_stack,
                                output: f.output + child_output,
                                ..f
                            })
                        },
                        Run::Fault(e) => {
                            &&& r == Err::<(), VmError>(e)
                            &&& final(self).frame() == f
                        },
                        Run::OutOfFuel => {
                            &&& r == Err::<(), VmError>(VmError::StepLimit)
                            &&& final(self).frame() == f
                        },
                    }
                }
            }),
        decreases fuel as int, 1int,
    {
        let sig = FunctionSignature { function_name_index, parameter_size };
        match self.lookup_function(sig) {
            None => Err(VmError::UnknownFunction(function_name_index, parameter_size)),
            Some(function_initial_pos) => {
                let p = parameter_size as usize;
                let len = self.stack.len();
                if len < p {
                    return Err(VmError::StackUnderflow);
                }
                let parameter_stack = self.stack_tail(p);
                let proc = self.subprocess(function_initial_pos, parameter_stack);
                proof {
                    assert(proc.frame() =~= invoke_child(old(self).frame(), sig));
                }
                match proc.run(fuel) {
                    Err(e) => Err(e),
                    Ok((mut return_stack, mut child_output)) => {
                        self.stack.truncate(len - p);
                        self.stack.append(&mut return_stack);
                        self.output.append(&mut child_output);
                        proof {
                            let f = old(self).frame();
                            let n = f.stack.len() as int;
                            match run_model(
                                old(self).machine().constants_view(),
                                old(self).machine().code_view(),
                                invoke_child(f, sig),
                                fuel as nat,
                            ) {
                                Run::Done { stack: child_stack, output: child_output_m } => {
                                    assert(self.stack.deep_view() =~= f.stack.take(
                                        n - parameter_size,
                                    ) + child_stack);
                                    assert(self.output.deep_view() =~= f.output + child_output_m);
                                    assert(self.frame() =~= (Frame {
                                        stack: f.stack.take(n - parameter_size) + child_stack,
                                        output: f.output + child_output_m,
                                        ..f
                                    }));
                                },
                                _ => {},
                            }
                        }
                        Ok(())
                    },
                }
            },
        }
    }

    /// Run this frame to its end on the given step budget: fetch,
    /// dispatch, and advance the program counter (except after `Goto`),
    /// exactly as `run_model` says.
    #[verifier::loop_isolation(false)]
    pub fn run(self, fuel: u64) -> (r: Result<(Vec<Stackable>, Vec<String>), VmError>)
        requires
            self.machine().wf(),
        ensures
            match run_model(
                self.machine().constants_view(),
                self.machine().code_view(),
                self.frame(),
                fuel as nat,
            ) {
                Run::Done { stack, output } => r matches Ok(p) && p.0.deep_view() == stack
                    && p.1.deep_view() == output,
                Run::Fault(e) => r matches Err(x) && x == e,
                Run::OutOfFuel => r matches Err(x) && x == VmError::StepLimit,
            },
        decreases fuel as int, 0int,
    {
        let ghost cs = self.machine().constants_view();
        let ghost gcode = self.machine().code_view();
        let ghost f0 = self.frame();
        let ghost fuel0 = fuel as nat;
        let mut this = self;
        let mut budget: u64 = fuel;
        let len = this.vm.code.instructions.len();
        let len32 = len as u32;
        loop
            invariant
                this.machine().constants_view() == cs,
                this.machine().code_view() == gcode,
                this.machine().wf(),
                len32 as int == gcode.len(),
                budget <= fuel,
                run_model(cs, gcode, f0, fuel0) == run_model(
                    cs,
                    gcode,
                    this.frame(),
                    budget as nat,
                ),
            decreases budget,
        {
            let ghost f_before = this.frame();
            let ghost b_before = budget as nat;
            if this.pos >= len32 {
                let output = this.output;
                let empty_stack: Vec<Stackable> = Vec::new();
                proof {
                    assert(empty_stack.deep_view() =~= Seq::<StackVal>::empty());
                }
                return Ok((empty_stack, output));
            }
            if budget == 0 {
                return Err(VmError::StepLimit);
            }
            budget = budget - 1;
            let opcode = this.vm.code.instructions[this.pos as usize];
            match opcode {
                Opcode::Ldc(index) => {
                    if let Err(e) = this.ldc(index as usize) {
                        return Err(e);
                    }
                },
                Opcode::Dump => {
                    if let Err(e) = this.dump() {
                        return Err(e);
                    }
                },
                Opcode::Add | Opcode::Sub | Opcode::Mul | Opcode::Div | Opcode::Mod => {
                    if let Err(e) = this.arith_op(opcode) {
                        return Err(e);
                    }
                },
                Opcode::Dup => {
                    if let Err(e) = this.dup() {
                        return Err(e);
                    }
                },
                Opcode::Swp => {
                    if let Err(e) = this.swp() {
                        return Err(e);
                    }
                },
                Opcode::Store(index) => {
                    if let Err(e) = this.store(index as usize) {
                        return Err(e);
                    }
                },
                Opcode::Load(index) => {
                    if let Err(e) = this.load(index as usize) {
                        return Err(e);
                    }
                },
                Opcode::Goto(index) => {
                    this.goto(index);
                },
                Opcode::Nop => {},
                Opcode::Func(function_name_index, parameter_size) => {
                    this.func(function_name_index, parameter_size);
                },
                Opcode::Return => {
                    return Ok((this.stack, this.output));
                },
                Opcode::Invoke(function_name_index, parameter_size) => {
                    if let Err(e) = this.invoke(function_name_index, parameter_size, budget) {
                        return Err(e);
                    }
                },
            }
            let is_goto = match opcode {
                Opcode::Goto(_) => true,
                _ => false,
            };
            if !is_goto {
                if this.pos < len32 {
                    this.pos = this.pos + 1;
                }
            }
            proof {
                match gcode[f_before.pc as int] {
                    Opcode::Invoke(ni, np) => {
                        let sig = FunctionSignature {
                            function_name_index: ni,
                            parameter_size: np,
                        };
                        if f_before.functions.dom().contains(sig) && f_before.stack.len() >= np {
                            match run_model(
                                cs,
                                gcode,
                                invoke_child(f_before, sig),
                                (b_before - 1) as nat,
                            ) {
                                Run::Done { stack: child_stack, output: child_output } => {
                                    assert(this.frame() =~= (Frame {
                                        stack: f_before.stack.take(
                                            f_before.stack.len() - np,
                                        ) + child_stack,
                                        output: f_before.output + child_output,
                                        pc: (f_before.pc + 1) as u32,
                                        ..f_before
                                    }));
                                },
                                _ => {},
                            }
                        }
                    },
                    Opcode::Return => {},
                    _ => {
                        lemma_skip_body_range(gcode, f_before.pc + 1, 0);
                        match step(cs, gcode, f_before) {
                            StepRes::Next(f2) => {
                                assert(f2 =~= this.frame());
                            },
                            _ => {},
                        }
                    },
                }
            }
        }
    }
}

/// Program-counter law: after any instruction other than `Func` (which
/// jumps past the body it registers, as its own contract states), the
/// counter is either the next instruction index or the target of the
/// just-taken `Goto`.  An `Invoke` leaves the counter at the call site
/// and the run relation then advances it by one, so it obeys the same
/// law.
pub proof fn lemma_step_pc(consts: Seq<StackVal>, code: Seq<Opcode>, f: Frame)
    requires
        code.len() <= u32::MAX,
        f.pc < code.len(),
        !(code[f.pc as int] is Func),
    ensures
        step(consts, code, f) matches StepRes::Next(f2) ==> f2.pc == f.pc + 1 || (code[f.pc as int]
            matches Opcode::Goto(t) && f2.pc == t),
{
}

/// Boundary law: a `Goto` whose target is exactly the code's length
/// terminates the frame cleanly — the run ends with an empty result
/// stack and the output gathered so far, never a fault.
pub proof fn lemma_goto_end_terminates(
    consts: Seq<StackVal>,
    code: Seq<Opcode>,
    f: Frame,
    fuel: nat,
)
    requires
        code.len() <= u32::MAX,
        f.pc < code.len(),
        code[f.pc as int] == Opcode::Goto(code.len() as u32),
        fuel >= 1,
    ensures
        run_model(consts, code, f, fuel) == (Run::Done {
            stack: Seq::<StackVal>::empty(),
            output: f.output,
        }),
{
    let f2 = Frame { pc: code.len() as u32, ..f };
    assert(step(consts, code, f) == StepRes::Next(f2));
    assert(run_model(consts, code, f, fuel) == run_model(consts, code, f2, (fuel - 1) as nat));
    assert(run_model(consts, code, f2, (fuel - 1) as nat) == (Run::Done {
        stack: Seq::<StackVal>::empty(),
        output: f.output,
    }));
}

/// Boundary law: over an empty constant pool and an empty instruction
/// stream, execution is a no-op — an empty result and no output, on any
/// budget.
pub proof fn lemma_empty_program_no_op(fuel: nat)
    ensures
        run_model(Seq::empty(), Seq::empty(), init_frame(0), fuel) == (Run::Done {
            stack: Seq::<StackVal>::empty(),
            output: Seq::<Seq<char>>::empty(),
        }),
{
    assert(init_frame(0).pc >= Seq::<Opcode>::empty().len());
    assert(run_model(Seq::empty(), Seq::empty(), init_frame(0), fuel) == (Run::Done {
        stack: Seq::<StackVal>::empty(),
        output: init_frame(0).output,
    }));
}

/// The child frame an `Invoke` spawns for a registered signature.
pub open spec fn invoke_child(f: Frame, sig: FunctionSignature) -> Frame
    recommends
        f.functions.dom().contains(sig),
        f.stack.len() >= sig.parameter_size,
{
    Frame {
        functions: f.functions,
        stack: f.stack.skip(f.stack.len() - sig.parameter_size),
        locals: f.locals,
        pc: f.functions[sig],
        output: Seq::empty(),
    }
}

/// What an arithmetic instruction's method guarantees: the exact stack
/// effect of `step` on that instruction, the matching fault otherwise.
pub open spec fn arith_post(f: Frame, f2: Frame, op: Opcode, r: Result<(), VmError>) -> bool {
    let n = f.stack.len() as int;
    if f.stack.len() < 2 {
        r == Err::<(), VmError>(VmError::StackUnderflow) && f2 == f
    } else if f.stack.last() is Str || f.stack[n - 2] is Str {
        r == Err::<(), VmError>(VmError::StringArithmetic) && f2 == f
    } else {
        r is Ok && f2 == (Frame {
            stack: f.stack.take(n - 2).push(arith_val(op, f.stack.last(), f.stack[n - 2])),
            ..f
        })
    }
}

} // verus!
