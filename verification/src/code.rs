//! Bytecode: the fixed opcode set, instruction encoding with
//! big-endian operands, the byte-addressed instruction buffer, and
//! the disassembler.

use vstd::prelude::*;
use vstd::string::StringExecFns;

use crate::strutil::{dec_rep, append_dec};

verus! {

/// The opcode set, one byte each.
#[derive(Debug, Clone, Copy, PartialEq, Eq, Structural)]
pub enum OpCode {
    Constant,

    Add,
    Pop,
    Sub,
    Mul,
    Div,
    True,
    False,
    Eq,
    NotEq,
    Greater,
    Bang,
    Minus,

    Jump,
    JumpNotTrue,

    SetGlobal,
    GetGlobal,
    SetLocal,
    GetLocal,
    GetBuiltin,

    Array,
    Hash,
    Index,

    Call,
    ReturnValue,
    Return,
}

/// The encoding byte of an opcode.
pub open spec fn op_byte(op: OpCode) -> u8 {
    match op {
        OpCode::Constant => 0,
        OpCode::Add => 1,
        OpCode::Pop => 2,
        OpCode::Sub => 3,
        OpCode::Mul => 4,
        OpCode::Div => 5,
        OpCode::True => 6,
        OpCode::False => 7,
        OpCode::Eq => 8,
        OpCode::NotEq => 9,
        OpCode::Greater => 10,
        OpCode::Bang => 11,
        OpCode::Minus => 12,
        OpCode::Jump => 13,
        OpCode::JumpNotTrue => 14,
        OpCode::SetGlobal => 15,
        OpCode::GetGlobal => 16,
        OpCode::SetLocal => 17,
        OpCode::GetLocal => 18,
        OpCode::GetBuiltin => 19,
        OpCode::Array => 20,
        OpCode::Hash => 21,
        OpCode::Index => 22,
        OpCode::Call => 23,
        OpCode::ReturnValue => 24,
        OpCode::Return => 25,
    }
}

/// The opcode of an encoding byte, when there is one.
pub open spec fn byte_op(b: u8) -> Option<OpCode> {
    if b == 0 {
        Some(OpCode::Constant)
    } else if b == 1 {
        Some(OpCode::Add)
    } else if b == 2 {
        Some(OpCode::Pop)
    } else if b == 3 {
        Some(OpCode::Sub)
    } else if b == 4 {
        Some(OpCode::Mul)
    } else if b == 5 {
        Some(OpCode::Div)
    } else if b == 6 {
        Some(OpCode::True)
    } else if b == 7 {
        Some(OpCode::False)
    } else if b == 8 {
        Some(OpCode::Eq)
    } else if b == 9 {
        Some(OpCode::NotEq)
    } else if b == 10 {
        Some(OpCode::Greater)
    } else if b == 11 {
        Some(OpCode::Bang)
    } else if b == 12 {
        Some(OpCode::Minus)
    } else if b == 13 {
        Some(OpCode::Jump)
    } else if b == 14 {
        Some(OpCode::JumpNotTrue)
    } else if b == 15 {
        Some(OpCode::SetGlobal)
    } else if b == 16 {
        Some(OpCode::GetGlobal)
    } else if b == 17 {
        Some(OpCode::SetLocal)
    } else if b == 18 {
        Some(OpCode::GetLocal)
    } else if b == 19 {
        Some(OpCode::GetBuiltin)
    } else if b == 20 {
        Some(OpCode::Array)
    } else if b == 21 {
        Some(OpCode::Hash)
    } else if b == 22 {
        Some(OpCode::Index)
    } else if b == 23 {
        Some(OpCode::Call)
    } else if b == 24 {
        Some(OpCode::ReturnValue)
    } else if b == 25 {
        Some(OpCode::Return)
    } else {
        None
    }
}

/// The width in bytes of an opcode's operand: two for the u16
/// operands, one for the u8 operands, zero for the bare opcodes.
pub open spec fn op_width(op: OpCode) -> int {
    match op {
        OpCode::Constant => 2,
        OpCode::Jump => 2,
        OpCode::JumpNotTrue => 2,
        OpCode::SetGlobal => 2,
        OpCode::GetGlobal => 2,
        OpCode::SetLocal => 1,
        OpCode::GetLocal => 1,
        OpCode::GetBuiltin => 1,
        OpCode::Array => 2,
        OpCode::Hash => 2,
        OpCode::Call => 1,
        _ => 0,
    }
}

/// The printed name of an opcode.
pub open spec fn op_name(op: OpCode) -> Seq<char> {
    match op {
        OpCode::Constant => "OpConstant"@,
        OpCode::Add => "OpAdd"@,
        OpCode::Pop => "OpPop"@,
        OpCode::Sub => "OpSub"@,
        OpCode::Mul => "OpMul"@,
        OpCode::Div => "OpDiv"@,
        OpCode::True => "OpTrue"@,
        OpCode::False => "OpFalse"@,
        OpCode::Eq => "OpEq"@,
        OpCode::NotEq => "OpNotEq"@,
        OpCode::Greater => "OpGreater"@,
        OpCode::Bang => "OpBang"@,
        OpCode::Minus => "OpMinus"@,
        OpCode::Jump => "OpJump"@,
        OpCode::JumpNotTrue => "OpJumpNotTrue"@,
        OpCode::SetGlobal => "OpSetGlobal"@,
        OpCode::GetGlobal => "OpGetGlobal"@,
        OpCode::SetLocal => "OpSetLocal"@,
        OpCode::GetLocal => "OpGetLocal"@,
        OpCode::GetBuiltin => "OpGetBuiltin"@,
        OpCode::Array => "OpArray"@,
        OpCode::Hash => "OpHash"@,
        OpCode::Index => "OpIndex"@,
        OpCode::Call => "OpCall"@,
        OpCode::ReturnValue => "OpReturnValue"@,
        OpCode::Return => "OpReturn"@,
    }
}

impl OpCode {
    /// The encoding byte of this opcode.
    pub fn byte(&self) -> (b: u8)
        ensures
            b == op_byte(*self),
            byte_op(b) == Some(*self),
    {
        match self {
            OpCode::Constant => 0,
            OpCode::Add => 1,
            OpCode::Pop => 2,
            OpCode::Sub => 3,
            OpCode::Mul => 4,
            OpCode::Div => 5,
            OpCode::True => 6,
            OpCode::False => 7,
            OpCode::Eq => 8,
            OpCode::NotEq => 9,
            OpCode::Greater => 10,
            OpCode::Bang => 11,
            OpCode::Minus => 12,
            OpCode::Jump => 13,
            OpCode::JumpNotTrue => 14,
            OpCode::SetGlobal => 15,
            OpCode::GetGlobal => 16,
            OpCode::SetLocal => 17,
            OpCode::GetLocal => 18,
            OpCode::GetBuiltin => 19,
            OpCode::Array => 20,
            OpCode::Hash => 21,
            OpCode::Index => 22,
            OpCode::Call => 23,
            OpCode::ReturnValue => 24,
            OpCode::Return => 25,
        }
    }

    /// The opcode of an encoding byte, when there is one.
    pub fn from_byte(b: u8) -> (r: Option<OpCode>)
        ensures
            r == byte_op(b),
    {
        if b == 0 {
            Some(OpCode::Constant)
        } else if b == 1 {
            Some(OpCode::Add)
        } else if b == 2 {
            Some(OpCode::Pop)
        } else if b == 3 {
            Some(OpCode::Sub)
        } else if b == 4 {
            Some(OpCode::Mul)
        } else if b == 5 {
            Some(OpCode::Div)
        } else if b == 6 {
            Some(OpCode::True)
        } else if b == 7 {
            Some(OpCode::False)
        } else if b == 8 {
            Some(OpCode::Eq)
        } else if b == 9 {
            Some(OpCode::NotEq)
        } else if b == 10 {
            Some(OpCode::Greater)
        } else if b == 11 {
            Some(OpCode::Bang)
        } else if b == 12 {
            Some(OpCode::Minus)
        } else if b == 13 {
            Some(OpCode::Jump)
        } else if b == 14 {
            Some(OpCode::JumpNotTrue)
        } else if b == 15 {
            Some(OpCode::SetGlobal)
        } else if b == 16 {
            Some(OpCode::GetGlobal)
        } else if b == 17 {
            Some(OpCode::SetLocal)
        } else if b == 18 {
            Some(OpCode::GetLocal)
        } else if b == 19 {
            Some(OpCode::GetBuiltin)
        } else if b == 20 {
            Some(OpCode::Array)
        } else if b == 21 {
            Some(OpCode::Hash)
        } else if b == 22 {
            Some(OpCode::Index)
        } else if b == 23 {
            Some(OpCode::Call)
        } else if b == 24 {
            Some(OpCode::ReturnValue)
        } else if b == 25 {
            Some(OpCode::Return)
        } else {
            None
        }
    }

    /// The operand layout of this opcode: its printed name, operand
    /// widths, and encoded length.
    pub fn def(&self) -> (d: Definition)
        ensures
            d.name@ == op_name(*self),
            d.operands@ == (if op_width(*self) == 0 {
                Seq::<usize>::empty()
            } else {
                seq![op_width(*self) as usize]
            }),
            d.len == 1 + op_width(*self),
    {
        let (name, width): (&'static str, usize) = match self {
            OpCode::Constant => ("OpConstant", 2),
            OpCode::Add => ("OpAdd", 0),
            OpCode::Pop => ("OpPop", 0),
            OpCode::Sub => ("OpSub", 0),
            OpCode::Mul => ("OpMul", 0),
            OpCode::Div => ("OpDiv", 0),
            OpCode::True => ("OpTrue", 0),
            OpCode::False => ("OpFalse", 0),
            OpCode::Eq => ("OpEq", 0),
            OpCode::NotEq => ("OpNotEq", 0),
            OpCode::Greater => ("OpGreater", 0),
            OpCode::Bang => ("OpBang", 0),
            OpCode::Minus => ("OpMinus", 0),
            OpCode::Jump => ("OpJump", 2),
            OpCode::JumpNotTrue => ("OpJumpNotTrue", 2),
            OpCode::SetGlobal => ("OpSetGlobal", 2),
            OpCode::GetGlobal => ("OpGetGlobal", 2),
            OpCode::SetLocal => ("OpSetLocal", 1),
            OpCode::GetLocal => ("OpGetLocal", 1),
            OpCode::GetBuiltin => ("OpGetBuiltin", 1),
            OpCode::Array => ("OpArray", 2),
            OpCode::Hash => ("OpHash", 2),
            OpCode::Index => ("OpIndex", 0),
            OpCode::Call => ("OpCall", 1),
            OpCode::ReturnValue => ("OpReturnValue", 0),
            OpCode::Return => ("OpReturn", 0),
        };
        let mut operands: Vec<usize> = Vec::new();
        if width > 0 {
            operands.push(width);
        }
        proof {
            if op_width(*self) == 0 {
                assert(operands@ =~= Seq::<usize>::empty());
            } else {
                assert(operands@ =~= seq![op_width(*self) as usize]);
            }
        }
        Definition { name, operands, len: 1 + width }
    }
}

/// An opcode's layout: printed name, operand widths, and the encoded
/// length of the whole instruction.
pub struct Definition {
    pub name: &'static str,
    pub operands: Vec<usize>,
    pub len: usize,
}

impl Definition {
    /// Build a layout; the encoded length is one byte for the opcode
    /// plus the operand widths.
    pub fn new(name: &'static str, operands: Vec<usize>) -> (d: Definition)
        requires
            operands@.fold_left(0int, |acc: int, w: usize| acc + w) + 1 <= usize::MAX,
        ensures
            d.name == name,
            d.operands == operands,
    {
        let mut len: usize = 1;
        let mut i: usize = 0;
        proof {
            assert(operands@.take(0int).fold_left(0int, |acc: int, w: usize| acc + w) == 0);
        }
        while i < operands.len()
            invariant
                i <= operands@.len(),
                len == 1 + operands@.take(i as int).fold_left(0int, |acc: int, w: usize| acc + w),
                operands@.fold_left(0int, |acc: int, w: usize| acc + w) + 1 <= usize::MAX,
            decreases operands@.len() - i,
        {
            proof {
                assert(operands@.take(i + 1).drop_last() =~= operands@.take(i as int));
                assert(operands@.take(i + 1).last() == operands@[i as int]);
                lemma_fold_add_prefix_bound(operands@, i + 1);
            }
            len = len + operands[i];
            i = i + 1;
        }
        proof {
            assert(operands@.take(operands@.len() as int) =~= operands@);
        }
        Definition { name, operands, len }
    }
}

proof fn lemma_fold_add_prefix_bound(s: Seq<usize>, i: int)
    requires
        0 <= i <= s.len(),
    ensures
        s.take(i).fold_left(0int, |acc: int, w: usize| acc + w) <= s.fold_left(
            0int,
            |acc: int, w: usize| acc + w,
        ),
        s.take(i).fold_left(0int, |acc: int, w: usize| acc + w) >= 0,
    decreases s.len() - i,
{
    lemma_fold_nonneg(s.take(i));
    if i < s.len() {
        assert(s.take(i + 1).drop_last() =~= s.take(i));
        lemma_fold_add_prefix_bound(s, i + 1);
    } else {
        assert(s.take(i) =~= s);
    }
}

proof fn lemma_fold_nonneg(s: Seq<usize>)
    ensures
        s.fold_left(0int, |acc: int, w: usize| acc + w) >= 0,
    decreases s.len(),
{
    if s.len() > 0 {
        lemma_fold_nonneg(s.drop_last());
    }
}

/// The mathematical mirror of an instruction.
pub struct InstrV {
    pub op: OpCode,
    pub operands: Seq<u32>,
}

/// An instruction before encoding: an opcode and its operands.
#[derive(Debug, PartialEq, Eq)]
pub struct Instruction {
    pub op: OpCode,
    pub operands: Vec<u32>,
}

impl View for Instruction {
    type V = InstrV;

    open spec fn view(&self) -> InstrV {
        InstrV { op: self.op, operands: self.operands@ }
    }
}

/// The first operand of an instruction, zero when there is none.
pub open spec fn operand0(iv: InstrV) -> u32 {
    if iv.operands.len() > 0 {
        iv.operands[0]
    } else {
        0
    }
}

/// The encoded bytes of an instruction: the opcode byte, then its
/// operand big-endian in the opcode's width.
pub open spec fn instr_bytes(iv: InstrV) -> Seq<u8> {
    let b = op_byte(iv.op);
    let x = operand0(iv);
    if op_width(iv.op) == 2 {
        seq![b, ((x as u16) / 256) as u8, ((x as u16) % 256) as u8]
    } else if op_width(iv.op) == 1 {
        seq![b, x as u8]
    } else {
        seq![b]
    }
}

impl Instruction {
    /// Build an instruction from an opcode and its operands.
    pub fn new(op: OpCode, operands: Vec<u32>) -> (r: Instruction)
        ensures
            r@ == (InstrV { op, operands: operands@ }),
    {
        Instruction { op, operands }
    }

    /// The encoding of this instruction alone.
    pub fn make(self) -> (r: Bytes)
        ensures
            r@ == instr_bytes(self@),
    {
        let mut b = Bytes::new();
        b.push(&self);
        b
    }

    /// A `Constant` instruction pointing at the null constant, which
    /// the compiler keeps first in every constant pool.
    pub fn null() -> (r: Instruction)
        ensures
            r@ == (InstrV { op: OpCode::Constant, operands: seq![0u32] }),
    {
        let operands: Vec<u32> = vec![0];
        proof {
            assert(operands@ =~= seq![0u32]);
        }
        Instruction { op: OpCode::Constant, operands }
    }
}

/// A byte-addressed instruction buffer.
#[derive(Debug, PartialEq, Eq)]
pub struct Bytes {
    data: Vec<u8>,
}

impl View for Bytes {
    type V = Seq<u8>;

    closed spec fn view(&self) -> Seq<u8> {
        self.data@
    }
}

impl Bytes {
    /// An empty buffer.
    pub fn new() -> (r: Bytes)
        ensures
            r@ == Seq::<u8>::empty(),
    {
        Bytes { data: Vec::new() }
    }

    /// The number of bytes held.
    pub fn len(&self) -> (n: usize)
        ensures
            n == self@.len(),
    {
        self.data.len()
    }

    /// Append the encoding of one instruction.
    pub fn push(&mut self, i: &Instruction)
        ensures
            final(self)@ == old(self)@ + instr_bytes(i@),
    {
        let width = op_width_exec(i.op);
        let x: u32 = if i.operands.len() > 0 {
            i.operands[0]
        } else {
            0
        };
        self.data.push(i.op.byte());
        if width == 2 {
            let v = #[verifier::truncate] (x as u16);
            self.data.push((v / 256) as u8);
            self.data.push((v % 256) as u8);
        } else if width == 1 {
            self.data.push(#[verifier::truncate] (x as u8));
        }
        proof {
            assert(self.data@ =~= old(self)@ + instr_bytes(i@));
        }
    }

    /// The byte at a position.
    pub fn read(&self, start: usize) -> (b: u8)
        requires
            start < self@.len(),
        ensures
            b == self@[start as int],
    {
        self.data[start]
    }

    /// The big-endian two-byte value at a position.
    pub fn read_u16(&self, start: usize) -> (v: u16)
        requires
            start + 2 <= self@.len(),
        ensures
            v == self@[start as int] * 256 + self@[start as int + 1],
    {
        let n = self.data.len();
        let hi = self.data[start] as u16;
        let lo = self.data[start + 1] as u16;
        hi * 256 + lo
    }

    /// Drop every byte at or after a position.
    pub fn truncate(&mut self, pos: usize)
        ensures
            final(self)@ == old(self)@.take(
                if pos <= old(self)@.len() {
                    pos as int
                } else {
                    old(self)@.len() as int
                },
            ),
    {
        self.data.truncate(pos);
    }

    /// Overwrite the instruction at a position in place, when it fits;
    /// the replacement must have the operand width of what it
    /// overwrites. A position too close to the end leaves the buffer
    /// alone.
    pub fn patch(&mut self, pos: usize, i: &Instruction)
        ensures
            final(self)@.len() == old(self)@.len(),
            pos + 1 + op_width(i@.op) <= old(self)@.len() ==> final(self)@ == old(self)@.take(
                pos as int,
            ) + instr_bytes(i@) + old(self)@.skip(pos + 1 + op_width(i@.op)),
            pos + 1 + op_width(i@.op) > old(self)@.len() ==> final(self)@ == old(self)@,
    {
        let n = self.data.len();
        let w0 = op_width_exec(i.op);
        if n - 0 < 1 + w0 || pos > n - 1 - w0 {
            return;
        }
        let width = op_width_exec(i.op);
        let x: u32 = if i.operands.len() > 0 {
            i.operands[0]
        } else {
            0
        };
        self.data.set(pos, i.op.byte());
        if width == 2 {
            let v = #[verifier::truncate] (x as u16);
            self.data.set(pos + 1, (v / 256) as u8);
            self.data.set(pos + 2, (v % 256) as u8);
        } else if width == 1 {
            self.data.set(pos + 1, #[verifier::truncate] (x as u8));
        }
        proof {
            assert(self.data@ =~= old(self)@.take(pos as int) + instr_bytes(i@) + old(self)@.skip(
                pos + 1 + op_width(i@.op),
            ));
        }
    }
}

/// The operand width of an opcode.
pub fn op_width_exec(op: OpCode) -> (w: usize)
    ensures
        w == op_width(op),
{
    match op {
        OpCode::Constant => 2,
        OpCode::Jump => 2,
        OpCode::JumpNotTrue => 2,
        OpCode::SetGlobal => 2,
        OpCode::GetGlobal => 2,
        OpCode::SetLocal => 1,
        OpCode::GetLocal => 1,
        OpCode::GetBuiltin => 1,
        OpCode::Array => 2,
        OpCode::Hash => 2,
        OpCode::Call => 1,
        _ => 0,
    }
}

/// An offset printed as four decimal digits, zero-padded.
pub open spec fn pad4(n: nat) -> Seq<char> {
    let d = dec_rep(n);
    if d.len() >= 4 {
        d
    } else {
        Seq::new((4 - d.len()) as nat, |i: int| '0') + d
    }
}

/// The disassembly of an instruction buffer from a position on: one
/// line per instruction, `<offset> <name> <operand>`; it stops at a
/// byte that is no opcode or at a truncated operand.
pub open spec fn bytes_text_from(s: Seq<u8>, idx: nat) -> Seq<char>
    decreases s.len() - idx,
{
    if idx >= s.len() {
        Seq::empty()
    } else {
        match byte_op(s[idx as int]) {
            None => Seq::empty(),
            Some(op) => {
                let w = op_width(op);
                if idx + 1 + w > s.len() {
                    Seq::empty()
                } else {
                    let line = if w == 2 {
                        pad4(idx) + " "@ + op_name(op) + " "@ + dec_rep(
                            (s[idx as int + 1] * 256 + s[idx as int + 2]) as nat,
                        ) + "\n"@
                    } else if w == 1 {
                        pad4(idx) + " "@ + op_name(op) + " "@ + dec_rep(s[idx as int + 1] as nat)
                            + "\n"@
                    } else {
                        pad4(idx) + " "@ + op_name(op) + "\n"@
                    };
                    line + bytes_text_from(s, (idx + 1 + w) as nat)
                }
            }
        }
    }
}

impl Bytes {
    /// The disassembly of this buffer, one instruction per line.
    #[verifier::rlimit(100)]
    #[verifier::spinoff_prover]
    pub fn to_text(&self) -> (r: String)
        ensures
            r@ == bytes_text_from(self@, 0),
    {
        let mut out = String::new();
        let mut idx: usize = 0;
        let ghost whole = self@;
        while idx < self.data.len()
            invariant
                self@ == whole,
                idx <= self@.len(),
                out@ + bytes_text_from(self@, idx as nat) == bytes_text_from(self@, 0),
            decreases self@.len() - idx,
        {
            let b = self.data[idx];
            let op = match OpCode::from_byte(b) {
                Some(op) => op,
                None => {
                    proof {
                        assert(bytes_text_from(self@, idx as nat) =~= Seq::<char>::empty());
                        assert(out@ =~= out@ + bytes_text_from(self@, idx as nat));
                    }
                    return out;
                }
            };
            let w = op_width_exec(op);
            if self.data.len() - idx - 1 < w {
                proof {
                    assert(bytes_text_from(self@, idx as nat) =~= Seq::<char>::empty());
                    assert(out@ =~= out@ + bytes_text_from(self@, idx as nat));
                }
                return out;
            }
            let ghost before_line = out@;
            append_pad4(&mut out, idx);
            out.append(" ");
            out.append(op_name_exec(op));
            if w == 2 {
                let hi = self.data[idx + 1] as u16;
                let lo = self.data[idx + 2] as u16;
                out.append(" ");
                append_dec(&mut out, (hi * 256 + lo) as u64);
            } else if w == 1 {
                out.append(" ");
                append_dec(&mut out, self.data[idx + 1] as u64);
            }
            out.append("\n");
            idx = idx + 1 + w;
            proof {
                assert(out@ + bytes_text_from(self@, idx as nat) =~= before_line + bytes_text_from(
                    self@,
                    (idx - 1 - w) as nat,
                ));
            }
        }
        proof {
            assert(bytes_text_from(self@, idx as nat) =~= Seq::<char>::empty());
            assert(out@ =~= out@ + bytes_text_from(self@, idx as nat));
        }
        out
    }
}

/// Append an offset as four decimal digits, zero-padded.
fn append_pad4(out: &mut String, n: usize)
    ensures
        final(out)@ == old(out)@ + pad4(n as nat),
{
    let ghost d = dec_rep(n as nat);
    if n < 10 {
        proof {
            assert(d =~= seq![crate::strutil::digit_char(n as nat)]);
            assert(pad4(n as nat) =~= seq!['0', '0', '0'] + d);
        }
        out.append("000");
        proof {
            reveal_strlit("000");
            assert(old(out)@ + "000"@ =~= old(out)@ + seq!['0', '0', '0']);
        }
    } else if n < 100 {
        proof {
            lemma_dec_rep_len_bounds(n as nat);
            assert(d.len() == 2);
            assert(pad4(n as nat) =~= seq!['0', '0'] + d);
        }
        out.append("00");
        proof {
            reveal_strlit("00");
            assert(old(out)@ + "00"@ =~= old(out)@ + seq!['0', '0']);
        }
    } else if n < 1000 {
        proof {
            lemma_dec_rep_len_bounds(n as nat);
            assert(d.len() == 3);
            assert(pad4(n as nat) =~= seq!['0'] + d);
        }
        out.append("0");
        proof {
            reveal_strlit("0");
            assert(old(out)@ + "0"@ =~= old(out)@ + seq!['0']);
        }
    } else {
        proof {
            lemma_dec_rep_len_ge4(n as nat);
        }
    }
    append_dec(out, n as u64);
    proof {
        assert(final(out)@ =~= old(out)@ + pad4(n as nat));
    }
}

proof fn lemma_dec_rep_len_bounds(n: nat)
    ensures
        n < 10 ==> dec_rep(n).len() == 1,
        10 <= n < 100 ==> dec_rep(n).len() == 2,
        100 <= n < 1000 ==> dec_rep(n).len() == 3,
    decreases n,
{
    if n >= 10 {
        lemma_dec_rep_len_bounds(n / 10);
    }
}

proof fn lemma_dec_rep_len_ge4(n: nat)
    requires
        n >= 1000,
    ensures
        dec_rep(n).len() >= 4,
    decreases n,
{
    if n / 10 >= 1000 {
        lemma_dec_rep_len_ge4(n / 10);
    } else {
        lemma_dec_rep_len_bounds(n / 10);
        assert(n / 10 >= 100);
    }
    assert(dec_rep(n) == dec_rep(n / 10).push(crate::strutil::digit_char(n % 10)));
}

/// The printed name of an opcode.
pub fn op_name_exec(op: OpCode) -> (r: &'static str)
    ensures
        r@ == op_name(op),
{
    match op {
        OpCode::Constant => "OpConstant",
        OpCode::Add => "OpAdd",
        OpCode::Pop => "OpPop",
        OpCode::Sub => "OpSub",
        OpCode::Mul => "OpMul",
        OpCode::Div => "OpDiv",
        OpCode::True => "OpTrue",
        OpCode::False => "OpFalse",
        OpCode::Eq => "OpEq",
        OpCode::NotEq => "OpNotEq",
        OpCode::Greater => "OpGreater",
        OpCode::Bang => "OpBang",
        OpCode::Minus => "OpMinus",
        OpCode::Jump => "OpJump",
        OpCode::JumpNotTrue => "OpJumpNotTrue",
        OpCode::SetGlobal => "OpSetGlobal",
        OpCode::GetGlobal => "OpGetGlobal",
        OpCode::SetLocal => "OpSetLocal",
        OpCode::GetLocal => "OpGetLocal",
        OpCode::GetBuiltin => "OpGetBuiltin",
        OpCode::Array => "OpArray",
        OpCode::Hash => "OpHash",
        OpCode::Index => "OpIndex",
        OpCode::Call => "OpCall",
        OpCode::ReturnValue => "OpReturnValue",
        OpCode::Return => "OpReturn",
    }
}

/// Copy an instruction buffer.
pub fn clone_bytes(b: &Bytes) -> (r: Bytes)
    ensures
        r@ == b@,
{
    let mut data: Vec<u8> = Vec::new();
    let mut i: usize = 0;
    let n = b.len();
    while i < n
        invariant
            i <= b@.len(),
            n == b@.len(),
            data@ == b@.take(i as int),
        decreases b@.len() - i,
    {
        data.push(b.read(i));
        i = i + 1;
        proof {
            assert(b@.take(i as int) =~= b@.take(i - 1).push(b@[i - 1]));
        }
    }
    proof {
        assert(b@.take(b@.len() as int) =~= b@);
    }
    Bytes { data }
}

} // verus!
