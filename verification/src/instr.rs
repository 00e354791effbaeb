//! The compiled program's instruction alphabet: bare control bytes and
//! length-prefixed pushes, together with the mathematical model that the
//! compiler's contracts are stated over.

use vstd::prelude::*;

verus! {

// The single-byte opcodes of the target machine that the compiler emits or
// recognizes, by their standardized byte values.
pub const OP_FALSE: u8 = 0x00;
pub const OP_IF: u8 = 0x63;
pub const OP_NOTIF: u8 = 0x64;
pub const OP_ELSE: u8 = 0x67;
pub const OP_ENDIF: u8 = 0x68;
pub const OP_VERIFY: u8 = 0x69;
pub const OP_DROP: u8 = 0x75;
pub const OP_DUP: u8 = 0x76;
pub const OP_PICK: u8 = 0x79;
pub const OP_ROLL: u8 = 0x7a;
pub const OP_SIZE: u8 = 0x82;
pub const OP_EQUAL: u8 = 0x87;
pub const OP_EQUALVERIFY: u8 = 0x88;
pub const OP_1ADD: u8 = 0x8b;
pub const OP_1SUB: u8 = 0x8c;
pub const OP_NEGATE: u8 = 0x8f;
pub const OP_ABS: u8 = 0x90;
pub const OP_NOT: u8 = 0x91;
pub const OP_0NOTEQUAL: u8 = 0x92;
pub const OP_ADD: u8 = 0x93;
pub const OP_SUB: u8 = 0x94;
pub const OP_BOOLAND: u8 = 0x9a;
pub const OP_BOOLOR: u8 = 0x9b;
pub const OP_NUMEQUAL: u8 = 0x9c;
pub const OP_NUMEQUALVERIFY: u8 = 0x9d;
pub const OP_NUMNOTEQUAL: u8 = 0x9e;
pub const OP_LESSTHAN: u8 = 0x9f;
pub const OP_GREATERTHAN: u8 = 0xa0;
pub const OP_LESSTHANOREQUAL: u8 = 0xa1;
pub const OP_GREATERTHANOREQUAL: u8 = 0xa2;
pub const OP_MIN: u8 = 0xa3;
pub const OP_MAX: u8 = 0xa4;
pub const OP_WITHIN: u8 = 0xa5;
pub const OP_RIPEMD160: u8 = 0xa6;
pub const OP_SHA1: u8 = 0xa7;
pub const OP_SHA256: u8 = 0xa8;
pub const OP_HASH160: u8 = 0xa9;
pub const OP_HASH256: u8 = 0xaa;
pub const OP_CHECKSIG: u8 = 0xac;
pub const OP_CHECKSIGVERIFY: u8 = 0xad;
pub const OP_CHECKMULTISIG: u8 = 0xae;
pub const OP_CLTV: u8 = 0xb1;
pub const OP_CSV: u8 = 0xb2;

/// The largest magnitude an integer literal may have on the target: one less
/// than 2^31, per the target's canonical numeric operand rules.
pub const NUM_LITERAL_MAX: i64 = 2147483647;

/// The largest byte length a single data push element may have on the target.
pub const PUSH_ELEMENT_MAX: usize = 520;

/// One instruction of the compiled program: either a bare opcode byte or a
/// push whose operand is length-prefixed (a number in minimal encoding, or a
/// raw byte string).
#[derive(Clone, Debug, PartialEq)]
pub enum Instruction {
    /// A bare control, compare, arithmetic, cryptographic or locktime opcode.
    Op(u8),
    /// A minimally-encoded integer push.
    PushNum(i64),
    /// A length-prefixed data push.
    PushData(Vec<u8>),
}

/// The mathematical model of one instruction.
pub enum Instr {
    Op(u8),
    PushNum(int),
    PushData(Seq<u8>),
}

impl View for Instruction {
    type V = Instr;

    open spec fn view(&self) -> Instr {
        match self {
            Instruction::Op(b) => Instr::Op(*b),
            Instruction::PushNum(n) => Instr::PushNum(*n as int),
            Instruction::PushData(d) => Instr::PushData(d@),
        }
    }
}

impl DeepView for Instruction {
    type V = Instr;

    open spec fn deep_view(&self) -> Instr {
        self.view()
    }
}

} // verus!
