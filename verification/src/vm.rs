//! The stack virtual machine: a fetch-decode-execute loop over the
//! compiled instructions, a fixed operand stack addressed by `sp`
//! (the next free slot), a fixed global table, and a call-frame
//! stack. Each frame records its callee, instruction pointer and
//! base pointer; locals live on the operand stack at the base. The
//! operator, indexing and truthiness semantics are the evaluator's
//! own spec functions, so both execution paths answer to one
//! definition.

use vstd::prelude::*;

use crate::builtin::Builtin;
use crate::builtin::{builtin_of_index, builtin_call_spec};
use crate::code::{Bytes, OpCode, clone_bytes, byte_op, op_width};
use crate::compiler::Bytecode;
use crate::eval::{infix_eval, prefix_eval, index_eval};
use crate::object::{
    Object, ObjV, RunError, ErrV, CompiledFuncObj, ArrayObj, HashObj, obj_view, objs_view,
    clone_obj, clone_objs, lemma_objs_view_len, lemma_objs_view_update, truthy, hashable,
    kind_text, hash_insert,
};
use crate::token::TokenType;

verus! {

/// The operand stack's fixed capacity.
pub const STACK_SIZE: usize = 2048;

/// The global table's fixed capacity.
pub const GLOBALS_SIZE: usize = 65535;

/// The operator token a binary opcode stands for.
pub open spec fn opcode_token(op: OpCode) -> TokenType {
    match op {
        OpCode::Add => TokenType::Plus,
        OpCode::Sub => TokenType::Minus,
        OpCode::Mul => TokenType::Star,
        OpCode::Div => TokenType::Slash,
        OpCode::Greater => TokenType::Gt,
        OpCode::Eq => TokenType::Eq,
        OpCode::NotEq => TokenType::NotEq,
        _ => TokenType::Illegal,
    }
}

/// A call frame: the function being run, its instruction pointer,
/// and its base pointer into the operand stack (the stack height at
/// call time minus the argument count).
#[derive(Debug)]
pub struct Frame {
    pub func: CompiledFuncObj,
    pub ip: usize,
    pub sp: usize,
}

/// The mathematical mirror of a call frame.
#[verifier::ext_equal]
pub struct FrameVmV {
    pub code: Seq<u8>,
    pub locals: nat,
    pub params: nat,
    pub ip: int,
    pub base: int,
}

impl View for Frame {
    type V = FrameVmV;

    open spec fn view(&self) -> FrameVmV {
        FrameVmV {
            code: self.func.instructions@,
            locals: self.func.locals as nat,
            params: self.func.params as nat,
            ip: self.ip as int,
            base: self.sp as int,
        }
    }
}

/// The mathematical mirror of the whole machine.
#[verifier::ext_equal]
pub struct VmV {
    pub constants: Seq<ObjV>,
    pub globals: Seq<ObjV>,
    pub stack: Seq<ObjV>,
    pub sp: int,
    pub frames: Seq<FrameVmV>,
}

/// The machine with the innermost frame's instruction pointer moved.
pub open spec fn with_ip(m: VmV, ip: int) -> VmV {
    VmV {
        frames: m.frames.update(
            m.frames.len() - 1,
            FrameVmV { ip, ..m.frames.last() },
        ),
        ..m
    }
}

/// Pushing a value: a full stack is a `stack overflow`.
pub open spec fn push_spec(m: VmV, v: ObjV) -> Result<VmV, ErrV> {
    if m.sp >= STACK_SIZE {
        Err(ErrV::StackOverflow)
    } else {
        Ok(VmV { stack: m.stack.update(m.sp, v), sp: m.sp + 1, ..m })
    }
}

/// Popping the top value: an empty stack is a `stack underflow`.
pub open spec fn pop_spec(m: VmV) -> Result<(ObjV, VmV), ErrV> {
    if m.sp <= 0 {
        Err(ErrV::StackUnderflow)
    } else {
        Ok((m.stack[m.sp - 1], VmV { sp: m.sp - 1, ..m }))
    }
}

/// A binary opcode: pop the right then the left operand and push
/// what the operator semantics yield on them.
pub open spec fn bin_op_spec(m: VmV, op: OpCode) -> Result<VmV, ErrV> {
    match pop_spec(m) {
        Ok((r, m1)) => match pop_spec(m1) {
            Ok((l, m2)) => match infix_eval(l, opcode_token(op), r) {
                Ok(v) => push_spec(m2, v),
                Err(e) => Err(e),
            },
            Err(e) => Err(e),
        },
        Err(e) => Err(e),
    }
}

/// The hash the `Hash` opcode builds out of `k` key-value slot pairs
/// from `start` on: keys must be hashable, a repeated key keeps its
/// place and takes the later value.
pub open spec fn hash_pairs_spec(
    stack: Seq<ObjV>,
    start: int,
    k: nat,
    acc: Seq<(ObjV, ObjV)>,
) -> Result<Seq<(ObjV, ObjV)>, ErrV>
    decreases k,
{
    if k == 0 {
        Ok(acc)
    } else if !hashable(stack[start]) {
        Err(ErrV::UnusableHashKey { kind: kind_text(stack[start]) })
    } else {
        hash_pairs_spec(
            stack,
            start + 2,
            (k - 1) as nat,
            hash_insert(acc, stack[start], stack[start + 1]),
        )
    }
}

/// The `Call` opcode on the value below the `nargs` arguments: a
/// compiled function of matching arity gets a frame whose base is
/// the stack height minus the argument count, with room for its
/// locals reserved; a builtin runs at once and its result replaces
/// the callee and the arguments; anything else cannot be called.
pub open spec fn call_spec(m: VmV, nargs: int) -> Result<VmV, ErrV> {
    if m.sp < nargs + 1 {
        Err(ErrV::StackUnderflow)
    } else {
        match m.stack[m.sp - 1 - nargs] {
            ObjV::CompiledFunc(code, locals, params) => if nargs != params {
                Err(ErrV::WrongNumberOfArgs { expected: params as int, got: nargs })
            } else {
                let base = m.sp - nargs;
                if locals > STACK_SIZE - base {
                    Err(ErrV::StackOverflow)
                } else {
                    Ok(
                        VmV {
                            frames: m.frames.push(
                                FrameVmV { code, locals, params, ip: 0, base },
                            ),
                            sp: base + locals,
                            ..m
                        },
                    )
                }
            },
            ObjV::Builtin(b) => match builtin_call_spec(
                b,
                m.stack.subrange(m.sp - nargs, m.sp),
            ) {
                Ok(v) => push_spec(VmV { sp: m.sp - 1 - nargs, ..m }, v),
                Err(e) => Err(e),
            },
            _ => Err(ErrV::CallingNonFunction),
        }
    }
}

/// Returning from the innermost frame: the frame is popped, the
/// stack pointer comes back to its base less one — discarding
/// callee, arguments and locals — and the result is pushed there.
pub open spec fn return_spec(m: VmV, val: ObjV) -> Result<VmV, ErrV> {
    if m.frames.len() <= 1 {
        Err(ErrV::CallingNonFunction)
    } else {
        let fr = m.frames.last();
        if fr.base == 0 {
            Err(ErrV::StackUnderflow)
        } else if fr.base > STACK_SIZE {
            Err(ErrV::StackOverflow)
        } else {
            push_spec(VmV { frames: m.frames.drop_last(), sp: fr.base - 1, ..m }, val)
        }
    }
}

/// One opcode on a machine whose instruction pointer already stands
/// past the instruction; `operand` is its decoded operand.
#[verifier::opaque]
pub open spec fn vm_op_spec(m: VmV, op: OpCode, operand: int) -> Result<VmV, ErrV> {
    match op {
        OpCode::Constant => if operand >= m.constants.len() {
            Err(ErrV::TruncatedInstruction)
        } else {
            push_spec(m, m.constants[operand])
        },
        OpCode::Add | OpCode::Sub | OpCode::Mul | OpCode::Div | OpCode::Greater | OpCode::Eq
            | OpCode::NotEq => bin_op_spec(m, op),
        OpCode::Pop => match pop_spec(m) {
            Ok((_, m1)) => Ok(m1),
            Err(e) => Err(e),
        },
        OpCode::True => push_spec(m, ObjV::Bool(true)),
        OpCode::False => push_spec(m, ObjV::Bool(false)),
        OpCode::Minus => match pop_spec(m) {
            Ok((v, m1)) => match prefix_eval(TokenType::Minus, v) {
                Ok(nv) => push_spec(m1, nv),
                Err(e) => Err(e),
            },
            Err(e) => Err(e),
        },
        OpCode::Bang => match pop_spec(m) {
            Ok((v, m1)) => push_spec(m1, ObjV::Bool(!truthy(v))),
            Err(e) => Err(e),
        },
        OpCode::Jump => Ok(with_ip(m, operand)),
        OpCode::JumpNotTrue => match pop_spec(m) {
            Ok((v, m1)) => if !truthy(v) {
                Ok(with_ip(m1, operand))
            } else {
                Ok(m1)
            },
            Err(e) => Err(e),
        },
        OpCode::SetGlobal => match pop_spec(m) {
            Ok((v, m1)) => if operand >= GLOBALS_SIZE {
                Err(ErrV::GlobalOutOfRange { index: operand })
            } else {
                Ok(VmV { globals: m1.globals.update(operand, v), ..m1 })
            },
            Err(e) => Err(e),
        },
        OpCode::GetGlobal => if operand >= GLOBALS_SIZE {
            Err(ErrV::GlobalOutOfRange { index: operand })
        } else {
            push_spec(m, m.globals[operand])
        },
        OpCode::SetLocal => match pop_spec(m) {
            Ok((v, m1)) => {
                let base = m1.frames.last().base;
                if base >= STACK_SIZE || operand >= STACK_SIZE - base {
                    Err(ErrV::StackOverflow)
                } else {
                    Ok(VmV { stack: m1.stack.update(base + operand, v), ..m1 })
                }
            },
            Err(e) => Err(e),
        },
        OpCode::GetLocal => {
            let base = m.frames.last().base;
            if base >= STACK_SIZE || operand >= STACK_SIZE - base {
                Err(ErrV::StackOverflow)
            } else {
                push_spec(m, m.stack[base + operand])
            }
        },
        OpCode::GetBuiltin => match builtin_of_index(operand) {
            Some(b) => push_spec(m, ObjV::Builtin(b)),
            None => Err(ErrV::UnknownBuiltin { index: operand }),
        },
        OpCode::Array => if m.sp < operand {
            Err(ErrV::StackUnderflow)
        } else {
            push_spec(
                VmV { sp: m.sp - operand, ..m },
                ObjV::Arr(m.stack.subrange(m.sp - operand, m.sp)),
            )
        },
        OpCode::Hash => if operand > STACK_SIZE || m.sp < 2 * operand {
            Err(ErrV::StackUnderflow)
        } else {
            match hash_pairs_spec(
                m.stack,
                m.sp - 2 * operand,
                operand as nat,
                Seq::empty(),
            ) {
                Ok(pairs) => push_spec(
                    VmV { sp: m.sp - 2 * operand, ..m },
                    ObjV::Hash(pairs),
                ),
                Err(e) => Err(e),
            }
        },
        OpCode::Index => match pop_spec(m) {
            Ok((idx, m1)) => match pop_spec(m1) {
                Ok((l, m2)) => match index_eval(l, idx) {
                    Ok(v) => push_spec(m2, v),
                    Err(e) => Err(e),
                },
                Err(e) => Err(e),
            },
            Err(e) => Err(e),
        },
        OpCode::Call => call_spec(m, operand),
        OpCode::ReturnValue => match pop_spec(m) {
            Ok((v, m1)) => return_spec(m1, v),
            Err(e) => Err(e),
        },
        OpCode::Return => return_spec(m, ObjV::Null),
    }
}

/// Running the machine: fetch, decode and execute instructions until
/// the innermost frame's pointer passes its code or the step budget
/// runs out. On success the final machine is fixed exactly; a failed
/// run fixes the error and leaves the machine state open for
/// inspection.
pub open spec fn vm_run_spec(fuel: nat, m: VmV) -> (Result<(), ErrV>, VmV)
    decreases fuel,
{
    let fr = m.frames.last();
    if fr.ip >= fr.code.len() {
        (Ok(()), m)
    } else if fuel == 0 {
        (Err(ErrV::OutOfFuel), m)
    } else {
        match byte_op(fr.code[fr.ip]) {
            None => (Err(ErrV::BadOpcode { byte: fr.code[fr.ip] as int }), m),
            Some(op) => {
                let w = op_width(op);
                if fr.code.len() - fr.ip - 1 < w {
                    (Err(ErrV::TruncatedInstruction), m)
                } else {
                    let operand: int = if w == 2 {
                        (fr.code[fr.ip + 1] as int) * 256 + (fr.code[fr.ip + 2] as int)
                    } else if w == 1 {
                        fr.code[fr.ip + 1] as int
                    } else {
                        0
                    };
                    let m1 = with_ip(m, fr.ip + 1 + w);
                    match vm_op_spec(m1, op, operand) {
                        Ok(m2) => vm_run_spec((fuel - 1) as nat, m2),
                        Err(e) => (Err(e), m1),
                    }
                }
            }
        }
    }
}

/// The virtual machine.
#[derive(Debug)]
pub struct Vm {
    constants: Vec<Object>,
    globals: Vec<Object>,
    stack: Vec<Object>,
    /// Points at the next free slot; the top of the stack is at
    /// `sp - 1`.
    sp: usize,
    frames: Vec<Frame>,
}

impl Vm {
    /// The machine's sizes hold and a frame is always running.
    pub closed spec fn wf(&self) -> bool {
        &&& self.stack@.len() == STACK_SIZE
        &&& self.globals@.len() == GLOBALS_SIZE
        &&& self.sp <= STACK_SIZE
        &&& self.frames@.len() >= 1
    }

    /// Every operand stack slot, the free ones included.
    pub closed spec fn stack_all(&self) -> Seq<ObjV> {
        objs_view(self.stack@)
    }

    /// The operand stack below the free slot.
    pub closed spec fn stack_view(&self) -> Seq<ObjV> {
        objs_view(self.stack@).take(self.sp as int)
    }

    /// The stack pointer: the next free slot.
    pub closed spec fn sp_view(&self) -> int {
        self.sp as int
    }

    /// The views of the global table.
    pub closed spec fn globals_view(&self) -> Seq<ObjV> {
        objs_view(self.globals@)
    }

    /// The base pointer of the innermost frame.
    pub closed spec fn cur_base(&self) -> int {
        self.frames@.last().sp as int
    }

    /// The number of live frames.
    pub closed spec fn frame_count(&self) -> nat {
        self.frames@.len()
    }

    /// The views of the constant pool held.
    pub closed spec fn consts_view(&self) -> Seq<ObjV> {
        objs_view(self.constants@)
    }

    /// The instructions of the innermost frame.
    pub closed spec fn frame_code(&self) -> Seq<u8> {
        self.frames@.last().func.instructions@
    }

    /// The instruction pointer of the innermost frame.
    pub closed spec fn frame_ip(&self) -> int {
        self.frames@.last().ip as int
    }

    /// The mathematical mirror of the whole machine.
    pub closed spec fn machine_view(&self) -> VmV {
        VmV {
            constants: objs_view(self.constants@),
            globals: objs_view(self.globals@),
            stack: objs_view(self.stack@),
            sp: self.sp as int,
            frames: Seq::new(self.frames@.len(), |i: int| self.frames@[i]@),
        }
    }

    /// A machine over compiled output, with a `Null`-filled global
    /// table and an empty stack.
    pub fn new(b: Bytecode) -> (r: Vm)
        ensures
            r.wf(),
            r.sp_view() == 0,
            r.frame_count() == 1,
            r.consts_view() == objs_view(b.constants@),
            r.frame_code() == b.instructions@,
            r.frame_ip() == 0,
            r.globals_view() =~= Seq::new(GLOBALS_SIZE as nat, |i: int| ObjV::Null),
    {
        let mut globals: Vec<Object> = Vec::new();
        let mut i: usize = 0;
        while i < GLOBALS_SIZE
            invariant
                i <= GLOBALS_SIZE,
                globals@.len() == i,
                forall|j: int| 0 <= j < i ==> #[trigger] globals@[j] is Null,
            decreases GLOBALS_SIZE - i,
        {
            globals.push(Object::Null);
            i = i + 1;
        }
        proof {
            lemma_objs_view_len(globals@);
            assert forall|j: int| 0 <= j < GLOBALS_SIZE implies objs_view(globals@)[j]
                == ObjV::Null by {
                assert(globals@[j] is Null);
                assert(obj_view(globals@[j]) == ObjV::Null);
            }
            assert(objs_view(globals@) =~= Seq::new(GLOBALS_SIZE as nat, |i: int| ObjV::Null));
        }
        Vm::with_globals(b, globals)
    }

    /// A machine that continues with an earlier run's global table,
    /// as the interactive loop does.
    pub fn new_with_state(b: Bytecode, globals: Vec<Object>) -> (r: Vm)
        requires
            globals@.len() == GLOBALS_SIZE,
        ensures
            r.wf(),
            r.sp_view() == 0,
            r.frame_count() == 1,
            r.globals_view() == objs_view(globals@),
            r.consts_view() == objs_view(b.constants@),
            r.frame_code() == b.instructions@,
            r.frame_ip() == 0,
    {
        Vm::with_globals(b, globals)
    }

    /// A machine over compiled output and a given global table.
    fn with_globals(b: Bytecode, globals: Vec<Object>) -> (r: Vm)
        requires
            globals@.len() == GLOBALS_SIZE,
        ensures
            r.wf(),
            r.sp_view() == 0,
            r.frame_count() == 1,
            r.globals_view() == objs_view(globals@),
            r.consts_view() == objs_view(b.constants@),
            r.frame_code() == b.instructions@,
            r.frame_ip() == 0,
    {
        let frame = Frame {
            func: CompiledFuncObj { instructions: b.instructions, locals: 0, params: 0 },
            ip: 0,
            sp: 0,
        };
        let mut frames: Vec<Frame> = Vec::new();
        frames.push(frame);
        let mut stack: Vec<Object> = Vec::new();
        let mut i: usize = 0;
        while i < STACK_SIZE
            invariant
                i <= STACK_SIZE,
                stack@.len() == i,
            decreases STACK_SIZE - i,
        {
            stack.push(Object::Null);
            i = i + 1;
        }
        Vm { constants: b.constants, globals, stack, sp: 0, frames }
    }

    /// A copy of the global table, to carry into a later run.
    pub fn state(&self) -> (r: Vec<Object>)
        requires
            self.wf(),
        ensures
            objs_view(r@) == self.globals_view(),
            r@.len() == GLOBALS_SIZE,
    {
        clone_objs(&self.globals)
    }

    /// The value on top of the stack, when there is one.
    pub fn stack_top(&self) -> (r: Option<Object>)
        requires
            self.wf(),
        ensures
            self.sp_view() == 0 ==> r is None,
            self.sp_view() > 0 ==> (r matches Some(o) && o@ == self.stack_view().last()),
    {
        if self.sp == 0 {
            None
        } else {
            proof {
                lemma_objs_view_len(self.stack@);
            }
            Some(clone_obj(&self.stack[self.sp - 1]))
        }
    }

    /// The value most recently popped off the stack: the slot just
    /// above the top.
    pub fn last_popped(&self) -> (r: Object)
        requires
            self.wf(),
        ensures
            self.sp_view() < STACK_SIZE ==> r@ == self.stack_all()[self.sp_view()],
            self.sp_view() == STACK_SIZE ==> r@ == ObjV::Null,
    {
        proof {
            lemma_objs_view_len(self.stack@);
        }
        if self.sp < STACK_SIZE {
            clone_obj(&self.stack[self.sp])
        } else {
            Object::Null
        }
    }

    /// Push a value; a full stack is a `stack overflow`.
    fn push(&mut self, obj: Object) -> (r: Result<(), RunError>)
        requires
            old(self).wf(),
        ensures
            final(self).wf(),
            final(self).globals_view() == old(self).globals_view(),
            final(self).frames@ == old(self).frames@,
            final(self).constants@ == old(self).constants@,
            old(self).sp_view() < STACK_SIZE ==> r is Ok && final(self).sp_view() == old(self).sp_view() + 1 && final(self).stack_view() == old(self).stack_view().push(obj@),
            old(self).sp_view() == STACK_SIZE ==> (r matches Err(e) && e@ == ErrV::StackOverflow
                && *final(self) == *old(self)),
            ({
                let m = old(self).machine_view();
                match push_spec(m, obj@) {
                    Ok(m2) => r is Ok && final(self).machine_view() == m2,
                    Err(e) => r matches Err(x) && x@ == e && final(self).machine_view() == m,
                }
            }),
    {
        if self.sp >= STACK_SIZE {
            return Err(RunError::StackOverflow);
        }
        proof {
            lemma_objs_view_len(self.stack@);
        }
        let ghost pre = self.stack@;
        self.stack.set(self.sp, obj);
        self.sp = self.sp + 1;
        proof {
            lemma_objs_view_len(self.stack@);
            assert forall|j: int| 0 <= j < self.sp implies objs_view(self.stack@).take(
                self.sp as int,
            )[j] == objs_view(pre).take(self.sp - 1).push(obj_view(obj))[j] by {
                if j < self.sp - 1 {
                    assert(self.stack@[j] == pre[j]);
                } else {
                    assert(self.stack@[j] == obj);
                }
            }
            assert(objs_view(self.stack@).take(self.sp as int) =~= objs_view(pre).take(
                self.sp - 1,
            ).push(obj_view(obj)));
            lemma_objs_view_update(pre, self.sp - 1, obj);
            assert(self.machine_view() =~= push_spec(old(self).machine_view(), obj@)->Ok_0);
        }
        Ok(())
    }

    /// Pop the top value; an empty stack is a `stack underflow`.
    fn pop(&mut self) -> (r: Result<Object, RunError>)
        requires
            old(self).wf(),
        ensures
            final(self).wf(),
            final(self).globals_view() == old(self).globals_view(),
            final(self).frames@ == old(self).frames@,
            final(self).constants@ == old(self).constants@,
            old(self).sp_view() > 0 ==> (r matches Ok(o) && o@ == old(self).stack_view().last()
                && final(self).sp_view() == old(self).sp_view() - 1 && final(self).stack_view()
                == old(self).stack_view().drop_last() && final(self).stack@ == old(self).stack@),
            old(self).sp_view() == 0 ==> (r matches Err(e) && e@ == ErrV::StackUnderflow
                && *final(self) == *old(self)),
            ({
                let m = old(self).machine_view();
                match pop_spec(m) {
                    Ok((v, m2)) => r matches Ok(o) && o@ == v && final(self).machine_view() == m2,
                    Err(e) => r matches Err(x) && x@ == e && final(self).machine_view() == m,
                }
            }),
    {
        if self.sp == 0 {
            return Err(RunError::StackUnderflow);
        }
        proof {
            lemma_objs_view_len(self.stack@);
        }
        let obj = clone_obj(&self.stack[self.sp - 1]);
        self.sp = self.sp - 1;
        proof {
            assert(objs_view(self.stack@).take(self.sp as int) =~= objs_view(self.stack@).take(
                self.sp + 1,
            ).drop_last());
            assert(self.machine_view() =~= (VmV {
                sp: self.sp as int,
                ..old(self).machine_view()
            }));
        }
        Ok(obj)
    }

    /// Run the loaded program to completion, or until the step
    /// budget runs out.
    #[verifier::loop_isolation(false)]
    #[verifier::rlimit(100)]
    #[verifier::spinoff_prover]
    pub fn run(&mut self, fuel: u64) -> (r: Result<(), RunError>)
        requires
            old(self).wf(),
        ensures
            final(self).wf(),
            ({
                let (r2, m2) = vm_run_spec(fuel as nat, old(self).machine_view());
                match r2 {
                    Ok(_) => r is Ok && final(self).machine_view() == m2,
                    Err(e) => r matches Err(x) && x@ == e,
                }
            }),
    {
        let ghost m_orig = old(self).machine_view();
        let mut f: u64 = fuel;
        loop
            invariant
                self.wf(),
                ({
                    let (ra, ma) = vm_run_spec(fuel as nat, m_orig);
                    let (rb, mb) = vm_run_spec(f as nat, self.machine_view());
                    ra == rb && (rb is Ok ==> ma == mb)
                }),
            decreases f,
        {
            let ghost m_pre = self.machine_view();
            let fr = self.frames.len() - 1;
            let ip = self.frames[fr].ip;
            let code_len = self.frames[fr].func.instructions.len();
            proof {
                assert(m_pre.frames.last() == self.frames@[fr as int]@);
            }
            if ip >= code_len {
                return Ok(());
            }
            if f == 0 {
                return Err(RunError::OutOfFuel);
            }
            let ghost f0 = f as nat;
            f = f - 1;
            let byte = self.frames[fr].func.instructions.read(ip);
            let op = match OpCode::from_byte(byte) {
                Some(op) => op,
                None => {
                    return Err(RunError::BadOpcode { byte });
                }
            };
            let width = crate::code::op_width_exec(op);
            if code_len - ip - 1 < width {
                return Err(RunError::TruncatedInstruction);
            }
            let operand: u16 = if width == 2 {
                self.frames[fr].func.instructions.read_u16(ip + 1)
            } else if width == 1 {
                self.frames[fr].func.instructions.read(ip + 1) as u16
            } else {
                0
            };
            self.frames[fr].ip = ip + 1 + width;
            proof {
                assert(self.machine_view() =~= with_ip(m_pre, ip + 1 + width));
            }
            match self.step_op(op, operand) {
                Ok(_) => {}
                Err(e) => {
                    return Err(e);
                }
            }
        }
    }

    /// Execute one decoded opcode; the instruction pointer already
    /// stands past it.
    #[verifier::rlimit(100)]
    #[verifier::spinoff_prover]
    #[verifier::loop_isolation(false)]
    fn step_op(&mut self, op: OpCode, operand: u16) -> (r: Result<(), RunError>)
        requires
            old(self).wf(),
            op_width(op) == 1 ==> operand <= 255,
        ensures
            final(self).wf(),
            ({
                let m = old(self).machine_view();
                match vm_op_spec(m, op, operand as int) {
                    Ok(m2) => r is Ok && final(self).machine_view() == m2,
                    Err(e) => r matches Err(x) && x@ == e,
                }
            }),
    {
        proof {
            reveal(vm_op_spec);
        }
        let ghost m1 = old(self).machine_view();
        let ghost od = operand as int;
        match op {
            OpCode::Constant => {
                proof {
                    lemma_objs_view_len(self.constants@);
                }
                if (operand as usize) >= self.constants.len() {
                    return Err(RunError::TruncatedInstruction);
                }
                let v = clone_obj(&self.constants[operand as usize]);
                proof {
                    assert(v@ == m1.constants[od]);
                }
                match self.push(v) {
                    Ok(_) => Ok(()),
                    Err(e) => Err(e),
                }
            }
            OpCode::Add | OpCode::Sub | OpCode::Mul | OpCode::Div | OpCode::Greater | OpCode::Eq
                | OpCode::NotEq => {
                self.execute_bin_op(op)
            }
            OpCode::Pop => {
                match self.pop() {
                    Ok(_) => Ok(()),
                    Err(e) => Err(e),
                }
            }
            OpCode::True => {
                match self.push(Object::Bool(true)) {
                    Ok(_) => Ok(()),
                    Err(e) => Err(e),
                }
            }
            OpCode::False => {
                match self.push(Object::Bool(false)) {
                    Ok(_) => Ok(()),
                    Err(e) => Err(e),
                }
            }
            OpCode::Minus => {
                let right = match self.pop() {
                    Ok(v) => v,
                    Err(e) => {
                        return Err(e);
                    }
                };
                let v = match crate::eval::eval_minus_op(&right) {
                    Ok(v) => v,
                    Err(e) => {
                        return Err(e);
                    }
                };
                match self.push(v) {
                    Ok(_) => Ok(()),
                    Err(e) => Err(e),
                }
            }
            OpCode::Bang => {
                let right = match self.pop() {
                    Ok(v) => v,
                    Err(e) => {
                        return Err(e);
                    }
                };
                match self.push(Object::Bool(!right.is_truthy())) {
                    Ok(_) => Ok(()),
                    Err(e) => Err(e),
                }
            }
            OpCode::Jump => {
                let fr = self.frames.len() - 1;
                self.frames[fr].ip = operand as usize;
                proof {
                    assert(self.machine_view() =~= with_ip(m1, od));
                }
                Ok(())
            }
            OpCode::JumpNotTrue => {
                let cond = match self.pop() {
                    Ok(v) => v,
                    Err(e) => {
                        return Err(e);
                    }
                };
                let ghost m_a = self.machine_view();
                if !cond.is_truthy() {
                    let fr = self.frames.len() - 1;
                    self.frames[fr].ip = operand as usize;
                    proof {
                        assert(self.machine_view() =~= with_ip(m_a, od));
                    }
                }
                Ok(())
            }
            OpCode::SetGlobal => {
                let v = match self.pop() {
                    Ok(v) => v,
                    Err(e) => {
                        return Err(e);
                    }
                };
                let ghost m_a = self.machine_view();
                if (operand as usize) >= GLOBALS_SIZE {
                    return Err(RunError::GlobalOutOfRange { index: operand });
                }
                let ghost pre_globals = self.globals@;
                let ghost vv = v@;
                self.globals.set(operand as usize, v);
                proof {
                    lemma_objs_view_update(pre_globals, od, self.globals@[od]);
                    assert(self.machine_view() =~= (VmV {
                        globals: m_a.globals.update(od, vv),
                        ..m_a
                    }));
                }
                Ok(())
            }
            OpCode::GetGlobal => {
                proof {
                    lemma_objs_view_len(self.globals@);
                }
                if (operand as usize) >= GLOBALS_SIZE {
                    return Err(RunError::GlobalOutOfRange { index: operand });
                }
                let v = clone_obj(&self.globals[operand as usize]);
                proof {
                    assert(v@ == m1.globals[od]);
                }
                match self.push(v) {
                    Ok(_) => Ok(()),
                    Err(e) => Err(e),
                }
            }
            OpCode::SetLocal => {
                let v = match self.pop() {
                    Ok(v) => v,
                    Err(e) => {
                        return Err(e);
                    }
                };
                let ghost m_a = self.machine_view();
                let fr = self.frames.len() - 1;
                let base = self.frames[fr].sp;
                proof {
                    assert(m_a.frames.last() == self.frames@[fr as int]@);
                }
                if base >= STACK_SIZE || (operand as usize) >= STACK_SIZE - base {
                    return Err(RunError::StackOverflow);
                }
                let slot = base + (operand as usize);
                let ghost pre_stack = self.stack@;
                let ghost vv = v@;
                self.stack.set(slot, v);
                proof {
                    lemma_objs_view_update(pre_stack, slot as int, self.stack@[slot as int]);
                    assert(self.machine_view() =~= (VmV {
                        stack: m_a.stack.update(m_a.frames.last().base + od, vv),
                        ..m_a
                    }));
                }
                Ok(())
            }
            OpCode::GetLocal => {
                let fr = self.frames.len() - 1;
                let base = self.frames[fr].sp;
                proof {
                    assert(m1.frames.last() == self.frames@[fr as int]@);
                    lemma_objs_view_len(self.stack@);
                }
                if base >= STACK_SIZE || (operand as usize) >= STACK_SIZE - base {
                    return Err(RunError::StackOverflow);
                }
                let slot = base + (operand as usize);
                let v = clone_obj(&self.stack[slot]);
                proof {
                    assert(v@ == m1.stack[m1.frames.last().base + od]);
                }
                match self.push(v) {
                    Ok(_) => Ok(()),
                    Err(e) => Err(e),
                }
            }
            OpCode::GetBuiltin => {
                let b = match Builtin::from_u8(operand as u8) {
                    Some(b) => b,
                    None => {
                        return Err(RunError::UnknownBuiltin { index: operand as u8 });
                    }
                };
                match self.push(Object::Builtin(b)) {
                    Ok(_) => Ok(()),
                    Err(e) => Err(e),
                }
            }
            OpCode::Array => {
                let n = operand as usize;
                if self.sp < n {
                    return Err(RunError::StackUnderflow);
                }
                proof {
                    lemma_objs_view_len(self.stack@);
                }
                let mut elements: Vec<Object> = Vec::new();
                let start = self.sp - n;
                let mut i: usize = start;
                while i < self.sp
                    invariant
                        start <= i <= self.sp <= self.stack@.len(),
                        elements@.len() == i - start,
                        forall|j: int| 0 <= j < elements@.len() ==> obj_view(
                            #[trigger] elements@[j],
                        ) == m1.stack[start + j],
                    decreases self.sp - i,
                {
                    elements.push(clone_obj(&self.stack[i]));
                    i = i + 1;
                }
                proof {
                    lemma_objs_view_len(elements@);
                    assert forall|j: int| 0 <= j < elements@.len() implies objs_view(
                        elements@,
                    )[j] == m1.stack.subrange(m1.sp - od, m1.sp)[j] by {
                        assert(objs_view(elements@)[j] == obj_view(elements@[j]));
                    }
                    assert(objs_view(elements@) =~= m1.stack.subrange(m1.sp - od, m1.sp));
                }
                self.sp = start;
                let ghost m_a = self.machine_view();
                proof {
                    assert(m_a =~= (VmV { sp: m1.sp - od, ..m1 }));
                }
                match self.push(Object::Array(ArrayObj { elements })) {
                    Ok(_) => Ok(()),
                    Err(e) => Err(e),
                }
            }
            OpCode::Hash => {
                let n = operand as usize;
                if n > STACK_SIZE || self.sp < 2 * n {
                    return Err(RunError::StackUnderflow);
                }
                proof {
                    lemma_objs_view_len(self.stack@);
                }
                let mut hash = HashObj::new();
                let start = self.sp - 2 * n;
                let mut i: usize = start;
                while i + 1 < self.sp
                    invariant
                        start <= i <= self.sp <= self.stack@.len(),
                        (i - start) % 2 == 0,
                        hash_pairs_spec(m1.stack, start as int, operand as nat, Seq::empty())
                            == hash_pairs_spec(
                            m1.stack,
                            i as int,
                            ((self.sp - i) / 2) as nat,
                            hash@,
                        ),
                    decreases self.sp - i,
                {
                    let k = clone_obj(&self.stack[i]);
                    if !k.is_hashable() {
                        return Err(RunError::unusable_hash_key(k.kind()));
                    }
                    let v = clone_obj(&self.stack[i + 1]);
                    hash.insert(k, v);
                    i = i + 2;
                }
                proof {
                    assert(hash_pairs_spec(m1.stack, start as int, operand as nat, Seq::empty())
                        == Ok::<Seq<(ObjV, ObjV)>, ErrV>(hash@));
                }
                self.sp = start;
                let ghost m_a = self.machine_view();
                proof {
                    assert(m_a =~= (VmV { sp: m1.sp - 2 * od, ..m1 }));
                }
                match self.push(Object::Hash(hash)) {
                    Ok(_) => Ok(()),
                    Err(e) => Err(e),
                }
            }
            OpCode::Index => {
                let index = match self.pop() {
                    Ok(v) => v,
                    Err(e) => {
                        return Err(e);
                    }
                };
                let left = match self.pop() {
                    Ok(v) => v,
                    Err(e) => {
                        return Err(e);
                    }
                };
                let v = match crate::eval::eval_index(&left, &index) {
                    Ok(v) => v,
                    Err(e) => {
                        return Err(e);
                    }
                };
                match self.push(v) {
                    Ok(_) => Ok(()),
                    Err(e) => Err(e),
                }
            }
            OpCode::Call => {
                self.execute_call(operand as u8)
            }
            OpCode::ReturnValue => {
                let val = match self.pop() {
                    Ok(v) => v,
                    Err(e) => {
                        return Err(e);
                    }
                };
                self.do_return(val)
            }
            OpCode::Return => {
                self.do_return(Object::Null)
            }
        }
    }

    /// Pop the innermost frame and leave its result in place of the
    /// callee and its arguments: the stack pointer returns to the
    /// frame's base pointer less one — discarding callee, arguments
    /// and locals — and the result is pushed there.
    fn do_return(&mut self, val: Object) -> (r: Result<(), RunError>)
        requires
            old(self).wf(),
        ensures
            final(self).wf(),
            r is Ok ==> final(self).frame_count() == old(self).frame_count() - 1 && final(self).sp_view() == old(self).cur_base(),
            ({
                let m = old(self).machine_view();
                match return_spec(m, val@) {
                    Ok(m2) => r is Ok && final(self).machine_view() == m2,
                    Err(e) => r matches Err(x) && x@ == e,
                }
            }),
    {
        let ghost m0 = old(self).machine_view();
        let ghost vv = val@;
        if self.frames.len() <= 1 {
            return Err(RunError::CallingNonFunction);
        }
        let frame = self.frames.pop().unwrap();
        proof {
            assert(m0.frames.last() == frame@);
        }
        if frame.sp == 0 {
            return Err(RunError::StackUnderflow);
        }
        if frame.sp > STACK_SIZE {
            return Err(RunError::StackOverflow);
        }
        self.sp = frame.sp - 1;
        let ghost m_pre = self.machine_view();
        proof {
            assert(m_pre =~= (VmV { frames: m0.frames.drop_last(), sp: frame.sp - 1, ..m0 }));
        }
        match self.push(val) {
            Ok(_) => {}
            Err(e) => {
                proof {
                    assert(return_spec(m0, vv) == push_spec(m_pre, vv));
                }
                return Err(e);
            }
        }
        proof {
            assert(return_spec(m0, vv) == push_spec(m_pre, vv));
        }
        Ok(())
    }

    /// Run a binary opcode: pop the right then the left operand and
    /// push what the operator semantics yield on them.
    fn execute_bin_op(&mut self, op: OpCode) -> (r: Result<(), RunError>)
        requires
            old(self).wf(),
        ensures
            final(self).wf(),
            old(self).sp_view() >= 2 ==> ({
                let l = old(self).stack_view()[old(self).sp_view() - 2];
                let rr = old(self).stack_view()[old(self).sp_view() - 1];
                match infix_eval(l, opcode_token(op), rr) {
                    Ok(v) => r is Ok && final(self).sp_view() == old(self).sp_view() - 1 && final(self).stack_view() == old(self).stack_view().drop_last().drop_last().push(v),
                    Err(e) => r matches Err(x) && x@ == e,
                }
            }),
            old(self).sp_view() < 2 ==> (r matches Err(e) && e@ == ErrV::StackUnderflow),
            ({
                let m = old(self).machine_view();
                match bin_op_spec(m, op) {
                    Ok(m2) => r is Ok && final(self).machine_view() == m2,
                    Err(e) => r matches Err(x) && x@ == e,
                }
            }),
    {
        let ghost pre = old(self).stack_view();
        let ghost m0 = old(self).machine_view();
        proof {
            lemma_objs_view_len(self.stack@);
            assert(pre.len() == old(self).sp_view());
        }
        let right = match self.pop() {
            Ok(v) => v,
            Err(e) => {
                return Err(e);
            }
        };
        let ghost m_a = self.machine_view();
        let left = match self.pop() {
            Ok(v) => v,
            Err(e) => {
                return Err(e);
            }
        };
        let ghost m_b = self.machine_view();
        proof {
            assert(left@ == pre.drop_last().last());
            assert(pre.drop_last().last() == pre[pre.len() - 2]);
            assert(right@ == pre.last());
            assert(pop_spec(m0) == Ok::<(ObjV, VmV), ErrV>((right@, m_a)));
            assert(pop_spec(m_a) == Ok::<(ObjV, VmV), ErrV>((left@, m_b)));
        }
        let tok = match op {
            OpCode::Add => TokenType::Plus,
            OpCode::Sub => TokenType::Minus,
            OpCode::Mul => TokenType::Star,
            OpCode::Div => TokenType::Slash,
            OpCode::Greater => TokenType::Gt,
            OpCode::Eq => TokenType::Eq,
            OpCode::NotEq => TokenType::NotEq,
            _ => TokenType::Illegal,
        };
        proof {
            assert(tok == opcode_token(op));
        }
        let v = match crate::eval::eval_infix(&left, tok, &right) {
            Ok(v) => v,
            Err(e) => {
                return Err(e);
            }
        };
        let ghost vv = v@;
        let ghost m_pre = self.machine_view();
        proof {
            assert(m_pre == m_b);
            assert(bin_op_spec(m0, op) == push_spec(m_b, vv));
            assert(m_b.sp < STACK_SIZE);
            assert(push_spec(m_b, vv) is Ok);
        }
        match self.push(v) {
            Ok(_) => {
                proof {
                    assert(self.stack_view() =~= old(self).stack_view().drop_last().drop_last()
                        .push(vv));
                    assert(self.machine_view() == push_spec(m_pre, vv)->Ok_0);
                }
                Ok(())
            }
            Err(e) => Err(e),
        }
    }

    /// Call the value sitting below the arguments: a compiled
    /// function of matching arity gets a frame whose base pointer is
    /// the stack height minus the argument count, and room for its
    /// locals; a builtin runs at once and its result replaces the
    /// callee and the arguments.
    #[verifier::rlimit(100)]
    #[verifier::loop_isolation(false)]
    fn execute_call(&mut self, nargs: u8) -> (r: Result<(), RunError>)
        requires
            old(self).wf(),
        ensures
            final(self).wf(),
            r is Ok && old(self).sp_view() >= nargs + 1 && old(self).stack_view()[old(self).sp_view() - 1 - nargs] is CompiledFunc ==> final(self).frame_count() == old(self).frame_count() + 1 && final(self).cur_base() == old(self).sp_view() - nargs,
            ({
                let m = old(self).machine_view();
                match call_spec(m, nargs as int) {
                    Ok(m2) => r is Ok && final(self).machine_view() == m2,
                    Err(e) => r matches Err(x) && x@ == e,
                }
            }),
    {
        let ghost m0 = old(self).machine_view();
        let n = nargs as usize;
        if self.sp < n + 1 {
            return Err(RunError::StackUnderflow);
        }
        proof {
            lemma_objs_view_len(self.stack@);
        }
        let callee_at = self.sp - 1 - n;
        proof {
            assert(m0.stack[callee_at as int] == obj_view(self.stack@[callee_at as int]));
        }
        let is_func = match &self.stack[callee_at] {
            Object::CompiledFunc(_) => true,
            _ => false,
        };
        if is_func {
            let (instructions, locals, params) = match &self.stack[callee_at] {
                Object::CompiledFunc(c) => (clone_bytes(&c.instructions), c.locals, c.params),
                _ => (Bytes::new(), 0, 0),
            };
            if n != params {
                return Err(RunError::wrong_number_of_args(params, n));
            }
            let base = self.sp - n;
            if locals > STACK_SIZE - base {
                return Err(RunError::StackOverflow);
            }
            self.frames.push(
                Frame {
                    func: CompiledFuncObj { instructions, locals, params },
                    ip: 0,
                    sp: base,
                },
            );
            self.sp = base + locals;
            proof {
                assert(self.machine_view().frames =~= m0.frames.push(
                    FrameVmV {
                        code: m0.stack[callee_at as int]->CompiledFunc_0,
                        locals: locals as nat,
                        params: params as nat,
                        ip: 0,
                        base: base as int,
                    },
                ));
                assert(self.machine_view() =~= call_spec(m0, nargs as int)->Ok_0);
            }
            return Ok(());
        }
        let is_builtin = match &self.stack[callee_at] {
            Object::Builtin(_) => true,
            _ => false,
        };
        if is_builtin {
            let b = match &self.stack[callee_at] {
                Object::Builtin(b) => *b,
                _ => Builtin::Puts,
            };
            proof {
                assert(m0.stack[callee_at as int] == ObjV::Builtin(b));
            }
            let mut args: Vec<Object> = Vec::new();
            let mut i: usize = self.sp - n;
            while i < self.sp
                invariant
                    old(self).sp - n <= i <= self.sp <= self.stack@.len(),
                    self == old(self),
                    args@.len() == i - (self.sp - n),
                    forall|j: int| 0 <= j < args@.len() ==> obj_view(#[trigger] args@[j])
                        == m0.stack[self.sp - n + j],
                decreases self.sp - i,
            {
                args.push(clone_obj(&self.stack[i]));
                i = i + 1;
            }
            proof {
                lemma_objs_view_len(args@);
                assert forall|j: int| 0 <= j < args@.len() implies objs_view(args@)[j]
                    == m0.stack.subrange(m0.sp - nargs, m0.sp)[j] by {
                    assert(objs_view(args@)[j] == obj_view(args@[j]));
                }
                assert(objs_view(args@) =~= m0.stack.subrange(m0.sp - nargs, m0.sp));
            }
            let v = match b.call(&args) {
                Ok(v) => v,
                Err(e) => {
                    return Err(e);
                }
            };
            let ghost vv = v@;
            self.sp = callee_at;
            let ghost m_pre = self.machine_view();
            proof {
                assert(m_pre =~= (VmV { sp: m0.sp - 1 - nargs, ..m0 }));
            }
            match self.push(v) {
                Ok(_) => {}
                Err(e) => {
                    proof {
                        assert(call_spec(m0, nargs as int) == push_spec(m_pre, vv));
                    }
                    return Err(e);
                }
            }
            proof {
                assert(call_spec(m0, nargs as int) == push_spec(m_pre, vv));
            }
            return Ok(());
        }
        proof {
            assert(!(m0.stack[callee_at as int] is CompiledFunc));
            assert(!(m0.stack[callee_at as int] is Builtin));
        }
        Err(RunError::CallingNonFunction)
    }
}

/// The stack discipline of a call: a `Call` with `nargs` arguments
/// on a compiled function of matching arity opens a frame whose base
/// pointer is the stack height minus `nargs`; whichever way a
/// machine standing in that frame returns — `ReturnValue` or
/// `Return` — it is left with the stack height it had just before
/// the `Call`, minus `nargs`-plus-one, plus one: the callee and its
/// arguments replaced by exactly one result.
pub proof fn lemma_call_stack_balance(m: VmV, nargs: int, val: ObjV)
    requires
        0 <= nargs,
        call_spec(m, nargs) is Ok,
        m.stack[m.sp - 1 - nargs] is CompiledFunc,
    ensures
        ({
            let m2 = call_spec(m, nargs)->Ok_0;
            &&& m2.frames.last().base == m.sp - nargs
            &&& forall|mr: VmV, v: ObjV| #![trigger return_spec(mr, v)]
                mr.frames.len() > 1 && mr.frames.last() == m2.frames.last() && return_spec(
                    mr,
                    v,
                ) is Ok ==> return_spec(mr, v)->Ok_0.sp == m.sp - (nargs + 1) + 1
        }),
{
    let m2 = call_spec(m, nargs)->Ok_0;
    assert(m2.frames.last().base == m.sp - nargs);
    assert forall|mr: VmV, v: ObjV| #![trigger return_spec(mr, v)]
        mr.frames.len() > 1 && mr.frames.last() == m2.frames.last() && return_spec(mr, v) is Ok
        implies return_spec(mr, v)->Ok_0.sp == m.sp - (nargs + 1) + 1 by {
        let fr = mr.frames.last();
        assert(return_spec(mr, v)->Ok_0.sp == (fr.base - 1) + 1);
    }
}

} // verus!
