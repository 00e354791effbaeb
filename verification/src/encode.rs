//! Byte emission and renderings. The byte-level serialization rules — the
//! minimal integer push, the length-prefixed data push, the disassembly text —
//! belong to the external instruction-emitter library; the compiler only
//! decides which of its primitives to call and in what order. The hexadecimal
//! rendering is the compiler's own.

use vstd::prelude::*;

use crate::instr::{Instr, Instruction, NUM_LITERAL_MAX, PUSH_ELEMENT_MAX};

verus! {

/// The bytes the emitter produces for a minimal-form integer push of `n`.
pub uninterp spec fn num_push_bytes(n: int) -> Seq<u8>;

/// The bytes the emitter produces for a length-prefixed push of a byte
/// string.
pub uninterp spec fn data_push_bytes(d: Seq<u8>) -> Seq<u8>;

/// The canonical disassembly of a byte sequence: each opcode and operand as
/// its standard mnemonic, single-space separated. Depends on the bytes alone.
pub uninterp spec fn disassembly_of(bytes: Seq<u8>) -> Seq<char>;

/// Relies on bitcoin::script::Builder::push_int: the minimal push of an
/// integer — zero and the values -1 through 16 as their dedicated single
/// opcode bytes, every other value as a length-prefixed little-endian
/// signed-magnitude operand. The compiler only pushes operands within the
/// target's signed numeric range; the emitter's eight-byte operand buffer
/// cannot hold the most negative machine integer, so wider values stay out.
#[verifier::external_body]
fn num_push_encode(n: i64) -> (r: Vec<u8>)
    requires
        -NUM_LITERAL_MAX <= n <= NUM_LITERAL_MAX,
    ensures
        r@ == num_push_bytes(n as int),
        r@.len() >= 1,
        n == 0 ==> r@ =~= seq![0x00u8],
        -1 <= n <= 16 ==> r@.len() == 1,
{
    bitcoin::script::Builder::new().push_int(n).into_bytes()
}

/// Relies on bitcoin::script::ScriptBuf::push_slice: the length-prefixed data
/// push. The prefix for an operand shorter than 76 bytes is the single length
/// byte; up to 255 bytes it is the one-byte-length marker and the length; past
/// that, within the element size limit, the two-byte-length marker and the
/// length in little-endian order.
#[verifier::external_body]
fn data_push_encode(d: &Vec<u8>) -> (r: Vec<u8>)
    requires
        d@.len() <= PUSH_ELEMENT_MAX,
    ensures
        r@ == data_push_bytes(d@),
        r@.len() > d@.len(),
        d@.len() < 76 ==> r@ =~= seq![d@.len() as u8] + d@,
        76 <= d@.len() < 256 ==> r@ =~= seq![0x4cu8, d@.len() as u8] + d@,
        256 <= d@.len() ==> r@ =~= seq![
            0x4du8,
            (d@.len() % 256) as u8,
            (d@.len() / 256) as u8,
        ] + d@,
{
    let mut buf = bitcoin::script::ScriptBuf::new();
    let operand: &bitcoin::script::PushBytes =
        d.as_slice().try_into().expect("push operand fits the emitter's length bound");
    buf.push_slice(operand);
    buf.into_bytes()
}

/// Relies on bitcoin::Script::to_asm_string: the mnemonic rendering of a
/// script's bytes.
#[verifier::external_body]
pub(crate) fn render_disassembly(bytes: &Vec<u8>) -> (r: String)
    ensures
        r@ == disassembly_of(bytes@),
{
    bitcoin::Script::from_bytes(bytes.as_slice()).to_asm_string()
}

/// The bytes of one instruction.
pub open spec fn instr_bytes(i: Instr) -> Seq<u8> {
    match i {
        Instr::Op(b) => seq![b],
        Instr::PushNum(n) => num_push_bytes(n),
        Instr::PushData(d) => data_push_bytes(d),
    }
}

/// The bytes of an instruction sequence: each instruction's bytes in order.
pub open spec fn bytes_of(s: Seq<Instr>) -> Seq<u8>
    decreases s.len(),
{
    if s.len() == 0 {
        Seq::empty()
    } else {
        instr_bytes(s[0]) + bytes_of(s.drop_first())
    }
}

/// Whether an instruction's operand fits the target's limits: a data push
/// within the element size limit, a number push within the signed numeric
/// operand range. Bare opcodes always do.
pub open spec fn instr_sized(i: Instr) -> bool {
    match i {
        Instr::PushData(d) => d.len() <= PUSH_ELEMENT_MAX as int,
        Instr::PushNum(n) => -(NUM_LITERAL_MAX as int) <= n <= NUM_LITERAL_MAX as int,
        Instr::Op(_) => true,
    }
}

/// Whether every operand of the sequence fits the target's limits.
pub open spec fn well_sized(s: Seq<Instr>) -> bool {
    forall|k: int| 0 <= k < s.len() ==> instr_sized(#[trigger] s[k])
}

/// Concatenation keeps every data push within the element size limit.
pub proof fn lemma_well_sized_concat(a: Seq<Instr>, b: Seq<Instr>)
    requires
        well_sized(a),
        well_sized(b),
    ensures
        well_sized(a + b),
{
    assert forall|k: int| 0 <= k < (a + b).len() implies instr_sized(#[trigger] (a + b)[k]) by {
        if k < a.len() {
            assert((a + b)[k] == a[k]);
        } else {
            assert((a + b)[k] == b[k - a.len()]);
        }
    }
}

/// Serializes the instruction sequence to the byte-exact program, one
/// emitter call per instruction, in order.
pub(crate) fn serialize(instrs: &Vec<Instruction>) -> (r: Vec<u8>)
    requires
        well_sized(instrs.deep_view()),
    ensures
        r@ == bytes_of(instrs.deep_view()),
{
    let ghost dv = instrs.deep_view();
    let mut out: Vec<u8> = Vec::new();
    let mut i: usize = 0;
    proof {
        assert(dv.skip(0) =~= dv);
    }
    while i < instrs.len()
        invariant
            i <= instrs.len(),
            dv == instrs.deep_view(),
            dv.len() == instrs.len(),
            well_sized(dv),
            bytes_of(dv) == out@ + bytes_of(dv.skip(i as int)),
        decreases instrs.len() - i,
    {
        let ghost j = i as int;
        let ghost out0 = out@;
        proof {
            assert(dv.skip(j)[0] == dv[j]);
            assert(dv.skip(j).drop_first() =~= dv.skip(j + 1));
            assert(bytes_of(dv.skip(j)) == instr_bytes(dv[j]) + bytes_of(dv.skip(j + 1)));
        }
        match &instrs[i] {
            Instruction::Op(b) => {
                out.push(*b);
                proof {
                    assert(out@ =~= out0 + instr_bytes(dv[j]));
                }
            },
            Instruction::PushNum(n) => {
                proof {
                    assert(instr_sized(dv[j]));
                }
                let mut e = num_push_encode(*n);
                proof {
                    assert(e@ == instr_bytes(dv[j]));
                }
                out.append(&mut e);
            },
            Instruction::PushData(d) => {
                proof {
                    assert(instr_sized(dv[j]));
                }
                let mut e = data_push_encode(d);
                proof {
                    assert(e@ == instr_bytes(dv[j]));
                }
                out.append(&mut e);
            },
        }
        proof {
            assert(out0 + (instr_bytes(dv[j]) + bytes_of(dv.skip(j + 1))) =~= (out0 + instr_bytes(
                dv[j],
            )) + bytes_of(dv.skip(j + 1)));
        }
        i += 1;
    }
    proof {
        assert(dv.skip(dv.len() as int) =~= Seq::<Instr>::empty());
        assert(out@ + Seq::<u8>::empty() =~= out@);
    }
    out
}

/// The hexadecimal digit of a value below sixteen.
pub open spec fn hex_digit(n: int) -> char {
    if n == 0 {
        '0'
    } else if n == 1 {
        '1'
    } else if n == 2 {
        '2'
    } else if n == 3 {
        '3'
    } else if n == 4 {
        '4'
    } else if n == 5 {
        '5'
    } else if n == 6 {
        '6'
    } else if n == 7 {
        '7'
    } else if n == 8 {
        '8'
    } else if n == 9 {
        '9'
    } else if n == 10 {
        'a'
    } else if n == 11 {
        'b'
    } else if n == 12 {
        'c'
    } else if n == 13 {
        'd'
    } else if n == 14 {
        'e'
    } else {
        'f'
    }
}

/// The lowercase hexadecimal text of a byte sequence: two digits per byte.
pub open spec fn hex_of(bytes: Seq<u8>) -> Seq<char>
    decreases bytes.len(),
{
    if bytes.len() == 0 {
        Seq::empty()
    } else {
        seq![hex_digit(bytes[0] as int / 16), hex_digit(bytes[0] as int % 16)] + hex_of(
            bytes.drop_first(),
        )
    }
}

/// The one-character text of a hexadecimal digit.
fn hex_digit_str(n: u8) -> (r: &'static str)
    requires
        n < 16,
    ensures
        r@ =~= seq![hex_digit(n as int)],
{
    proof {
        reveal_strlit("0");
        reveal_strlit("1");
        reveal_strlit("2");
        reveal_strlit("3");
        reveal_strlit("4");
        reveal_strlit("5");
        reveal_strlit("6");
        reveal_strlit("7");
        reveal_strlit("8");
        reveal_strlit("9");
        reveal_strlit("a");
        reveal_strlit("b");
        reveal_strlit("c");
        reveal_strlit("d");
        reveal_strlit("e");
        reveal_strlit("f");
    }
    if n == 0 {
        "0"
    } else if n == 1 {
        "1"
    } else if n == 2 {
        "2"
    } else if n == 3 {
        "3"
    } else if n == 4 {
        "4"
    } else if n == 5 {
        "5"
    } else if n == 6 {
        "6"
    } else if n == 7 {
        "7"
    } else if n == 8 {
        "8"
    } else if n == 9 {
        "9"
    } else if n == 10 {
        "a"
    } else if n == 11 {
        "b"
    } else if n == 12 {
        "c"
    } else if n == 13 {
        "d"
    } else if n == 14 {
        "e"
    } else {
        "f"
    }
}

/// Renders a byte sequence as lowercase hexadecimal text.
pub fn to_hex(bytes: &Vec<u8>) -> (r: String)
    ensures
        r@ == hex_of(bytes@),
{
    let mut out = String::new();
    let mut i: usize = 0;
    proof {
        assert(bytes@.skip(0) =~= bytes@);
    }
    while i < bytes.len()
        invariant
            i <= bytes.len(),
            hex_of(bytes@) == out@ + hex_of(bytes@.skip(i as int)),
        decreases bytes.len() - i,
    {
        let ghost j = i as int;
        let ghost out0 = out@;
        let b = bytes[i];
        proof {
            assert(bytes@.skip(j)[0] == bytes@[j]);
            assert(bytes@.skip(j).drop_first() =~= bytes@.skip(j + 1));
        }
        let hi = hex_digit_str(b / 16);
        let lo = hex_digit_str(b % 16);
        out.append(hi);
        out.append(lo);
        proof {
            assert(out@ =~= out0 + seq![hex_digit(b as int / 16), hex_digit(b as int % 16)]);
            assert(out0 + (seq![hex_digit(b as int / 16), hex_digit(b as int % 16)] + hex_of(
                bytes@.skip(j + 1),
            )) =~= out@ + hex_of(bytes@.skip(j + 1)));
        }
        i += 1;
    }
    proof {
        assert(bytes@.skip(bytes@.len() as int) =~= Seq::<u8>::empty());
        assert(out@ + Seq::<char>::empty() =~= out@);
    }
    out
}

} // verus!
