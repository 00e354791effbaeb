//! The compiler proper: expression and condition lowering, control-flow
//! lowering from structured conditionals into the target's flat branch
//! opcodes, the locktime operand encoder, and the program assembler. Every
//! public function's contract is stated against a mathematical mirror of the
//! translation, so the emitted instruction sequence is pinned down exactly.

use vstd::prelude::*;
use vstd::utf8::encode_utf8;

use crate::ast::{
    BinaryCompareOp, BinaryMathOp, ConditionExpression, Expression, StackParam, Statement, Type,
    UTXO,
};
use crate::encode::{disassembly_of, render_disassembly, bytes_of, hex_of, lemma_well_sized_concat, serialize, to_hex, well_sized};
use crate::error::CompileError;
use crate::instr::{Instr, Instruction, NUM_LITERAL_MAX, PUSH_ELEMENT_MAX};
use crate::instr::{
    OP_ABS, OP_ADD, OP_BOOLAND, OP_BOOLOR, OP_CHECKMULTISIG, OP_CHECKSIG, OP_CLTV, OP_CSV,
    OP_DROP, OP_ELSE, OP_ENDIF, OP_EQUAL, OP_GREATERTHAN, OP_GREATERTHANOREQUAL, OP_HASH160,
    OP_HASH256, OP_IF, OP_LESSTHAN, OP_LESSTHANOREQUAL, OP_MAX, OP_MIN, OP_NEGATE, OP_NOT,
    OP_NUMEQUAL, OP_NUMNOTEQUAL, OP_RIPEMD160, OP_SHA1, OP_SHA256, OP_SIZE, OP_SUB, OP_VERIFY,
    OP_WITHIN, OP_0NOTEQUAL, OP_1ADD, OP_1SUB,
};
use crate::optimize::{opcode_optimizer, optimized};
use crate::stack::{
    anonymize_from, lemma_extends_trans, lemma_take_extends, resolve_spec, shape_of,
    stack_extends, SimulatedStack, Slot, SlotModel, stack_resolver,
};
use crate::table::{identifiers_unique, stack_table};

verus! {

/// The largest absolute block height whose locktime operand encoding still
/// means a height rather than a timestamp.
pub const ABSOLUTE_HEIGHT_MAX: u32 = 499999999;

/// The largest relative block count a sequence-number locktime operand can
/// carry: its low sixteen bits.
pub const RELATIVE_BLOCKS_MAX: u32 = 65535;

/// The two locktime assertions of the target: absolute height and relative
/// confirmation count.
#[derive(Clone, Copy, Debug, PartialEq, Eq, Structural)]
pub enum LocktimeOp {
    Cltv,
    Csv,
}

/// An unnamed slot of the given type.
pub open spec fn anon(ty: Type) -> SlotModel {
    SlotModel { name: None, ty }
}

/// Appends one bare opcode.
fn append_opcode(script: &mut Vec<Instruction>, op: u8)
    ensures
        final(script).deep_view() == old(script).deep_view().push(Instr::Op(op)),
{
    let ghost before = script.deep_view();
    script.push(Instruction::Op(op));
    proof {
        assert(script.deep_view() =~= before.push(Instr::Op(op)));
    }
}

/// Appends a minimally-encoded integer push. The value must fit the target's
/// signed numeric operand range; one outside it is a compile-time error.
pub fn push_int(script: &mut Vec<Instruction>, n: i64) -> (r: Result<(), CompileError>)
    ensures
        -NUM_LITERAL_MAX <= n <= NUM_LITERAL_MAX ==> r is Ok && final(script).deep_view() == old(
            script,
        ).deep_view().push(Instr::PushNum(n as int)),
        !(-NUM_LITERAL_MAX <= n <= NUM_LITERAL_MAX) ==> r == Err::<(), CompileError>(
            CompileError::NumericOverflow,
        ) && final(script).deep_view() == old(script).deep_view(),
{
    if n < -NUM_LITERAL_MAX || n > NUM_LITERAL_MAX {
        return Err(CompileError::NumericOverflow);
    }
    let ghost before = script.deep_view();
    script.push(Instruction::PushNum(n));
    proof {
        assert(script.deep_view() =~= before.push(Instr::PushNum(n as int)));
    }
    Ok(())
}

/// Appends a length-prefixed data push. The operand must fit the target's
/// element size limit; a longer one is a compile-time error.
pub fn push_bytes(script: &mut Vec<Instruction>, data: Vec<u8>) -> (r: Result<(), CompileError>)
    ensures
        data@.len() <= PUSH_ELEMENT_MAX ==> r is Ok && final(script).deep_view() == old(
            script,
        ).deep_view().push(Instr::PushData(data@)),
        data@.len() > PUSH_ELEMENT_MAX ==> r == Err::<(), CompileError>(
            CompileError::NumericOverflow,
        ) && final(script).deep_view() == old(script).deep_view(),
{
    if data.len() > PUSH_ELEMENT_MAX {
        return Err(CompileError::NumericOverflow);
    }
    let ghost before = script.deep_view();
    let ghost dv = data@;
    script.push(Instruction::PushData(data));
    proof {
        assert(script.deep_view() =~= before.push(Instr::PushData(dv)));
    }
    Ok(())
}

/// The opcode that pushes the byte length of the top stack item.
pub fn push_bytes_len(script: &mut Vec<Instruction>)
    ensures
        final(script).deep_view() == old(script).deep_view().push(Instr::Op(OP_SIZE)),
{
    append_opcode(script, OP_SIZE);
}

/// The comparison opcodes: each sees the top two stack items, pops them, and
/// pushes a single boolean or equality verdict.
pub open spec fn is_compare_opcode(op: u8) -> bool {
    ||| op == OP_EQUAL
    ||| op == OP_BOOLAND
    ||| op == OP_BOOLOR
    ||| op == OP_NUMEQUAL
    ||| op == OP_NUMNOTEQUAL
    ||| op == OP_LESSTHAN
    ||| op == OP_GREATERTHAN
    ||| op == OP_LESSTHANOREQUAL
    ||| op == OP_GREATERTHANOREQUAL
}

/// Appends one comparison opcode.
pub fn push_compare(script: &mut Vec<Instruction>, op: u8)
    requires
        is_compare_opcode(op),
    ensures
        final(script).deep_view() == old(script).deep_view().push(Instr::Op(op)),
{
    append_opcode(script, op);
}

/// The unary arithmetic and boolean opcodes: each pops the top stack item and
/// pushes a single result.
pub open spec fn is_math_unary_opcode(op: u8) -> bool {
    ||| op == OP_1ADD
    ||| op == OP_1SUB
    ||| op == OP_NEGATE
    ||| op == OP_ABS
    ||| op == OP_NOT
    ||| op == OP_0NOTEQUAL
}

/// Appends one unary arithmetic or boolean opcode.
pub fn push_math_unary(script: &mut Vec<Instruction>, op: u8)
    requires
        is_math_unary_opcode(op),
    ensures
        final(script).deep_view() == old(script).deep_view().push(Instr::Op(op)),
{
    append_opcode(script, op);
}

/// The binary arithmetic opcodes: each pops the top two stack items and
/// pushes a single result.
pub open spec fn is_math_binary_opcode(op: u8) -> bool {
    ||| op == OP_ADD
    ||| op == OP_SUB
    ||| op == OP_MIN
    ||| op == OP_MAX
}

/// Appends one binary arithmetic opcode.
pub fn push_math_binary(script: &mut Vec<Instruction>, op: u8)
    requires
        is_math_binary_opcode(op),
    ensures
        final(script).deep_view() == old(script).deep_view().push(Instr::Op(op)),
{
    append_opcode(script, op);
}

/// The ternary arithmetic opcodes: each pops the top three stack items and
/// pushes a single result.
pub open spec fn is_math_ternary_opcode(op: u8) -> bool {
    op == OP_WITHIN
}

/// Appends one ternary arithmetic opcode.
pub fn push_math_ternary(script: &mut Vec<Instruction>, op: u8)
    requires
        is_math_ternary_opcode(op),
    ensures
        final(script).deep_view() == old(script).deep_view().push(Instr::Op(op)),
{
    append_opcode(script, op);
}

/// The cryptographic opcodes: each consumes its operand from the stack and
/// pushes a single digest or verdict.
pub open spec fn is_crypto_opcode(op: u8) -> bool {
    ||| op == OP_RIPEMD160
    ||| op == OP_SHA1
    ||| op == OP_SHA256
    ||| op == OP_HASH160
    ||| op == OP_HASH256
    ||| op == OP_CHECKSIG
    ||| op == OP_CHECKMULTISIG
}

/// Appends one cryptographic opcode.
pub fn push_crypto(script: &mut Vec<Instruction>, op: u8)
    requires
        is_crypto_opcode(op),
    ensures
        final(script).deep_view() == old(script).deep_view().push(Instr::Op(op)),
{
    append_opcode(script, op);
}

/// Appends the verify opcode: the target's only hard-failure primitive, which
/// aborts the program on a falsy top value and removes it otherwise.
pub fn push_control_verify(script: &mut Vec<Instruction>)
    ensures
        final(script).deep_view() == old(script).deep_view().push(Instr::Op(OP_VERIFY)),
{
    append_opcode(script, OP_VERIFY);
}

/// What a locktime assertion emits: the encoded operand push, the locktime
/// check, and a drop that discards the operand the check leaves behind — or
/// the error for an operand outside its encoding's range. An absolute operand
/// is a block height below the timestamp threshold; a relative operand is a
/// block count that fits the sequence encoding's low sixteen bits, its
/// disable flag cleared and its unit set to blocks.
pub open spec fn locktime_spec(operand: int, op: LocktimeOp) -> Result<Seq<Instr>, CompileError> {
    let bound = match op {
        LocktimeOp::Cltv => ABSOLUTE_HEIGHT_MAX as int,
        LocktimeOp::Csv => RELATIVE_BLOCKS_MAX as int,
    };
    let check = match op {
        LocktimeOp::Cltv => OP_CLTV,
        LocktimeOp::Csv => OP_CSV,
    };
    if operand > bound {
        Err(CompileError::LocktimeOutOfRange)
    } else {
        Ok(seq![Instr::PushNum(operand), Instr::Op(check), Instr::Op(OP_DROP)])
    }
}

/// Appends a locktime assertion: push the encoded operand, check it, drop it.
/// Fails with `LocktimeOutOfRange` exactly when the operand exceeds its
/// encoding's bound, leaving the script untouched.
pub fn push_locktime(script: &mut Vec<Instruction>, operand: u32, op: LocktimeOp) -> (r: Result<
    (),
    CompileError,
>)
    ensures
        match locktime_spec(operand as int, op) {
            Ok(frag) => r is Ok && final(script).deep_view() == old(script).deep_view() + frag,
            Err(e1) => r == Err::<(), CompileError>(e1) && final(script).deep_view() == old(
                script,
            ).deep_view(),
        },
{
    let bound = match op {
        LocktimeOp::Cltv => ABSOLUTE_HEIGHT_MAX,
        LocktimeOp::Csv => RELATIVE_BLOCKS_MAX,
    };
    if operand > bound {
        return Err(CompileError::LocktimeOutOfRange);
    }
    let check = match op {
        LocktimeOp::Cltv => OP_CLTV,
        LocktimeOp::Csv => OP_CSV,
    };
    let ghost before = script.deep_view();
    script.push(Instruction::PushNum(operand as i64));
    append_opcode(script, check);
    append_opcode(script, OP_DROP);
    proof {
        assert(script.deep_view() =~= before + seq![
            Instr::PushNum(operand as int),
            Instr::Op(check),
            Instr::Op(OP_DROP),
        ]);
    }
    Ok(())
}

/// The single opcode for a binary arithmetic operator.
pub open spec fn math_opcode(op: BinaryMathOp) -> u8 {
    match op {
        BinaryMathOp::Add => OP_ADD,
        BinaryMathOp::Sub => OP_SUB,
    }
}

/// The opcodes that realize a comparison of two operands of the given type,
/// or nothing where the type does not support the operator: ordered
/// comparison needs numbers, and a signature value supports no comparison.
pub open spec fn compare_code(op: BinaryCompareOp, ty: Type) -> Option<Seq<Instr>> {
    match ty {
        Type::Number => match op {
            BinaryCompareOp::Equal => Some(seq![Instr::Op(OP_NUMEQUAL)]),
            BinaryCompareOp::NotEqual => Some(seq![Instr::Op(OP_NUMNOTEQUAL)]),
            BinaryCompareOp::Greater => Some(seq![Instr::Op(OP_GREATERTHAN)]),
            BinaryCompareOp::GreaterOrEqual => Some(seq![Instr::Op(OP_GREATERTHANOREQUAL)]),
            BinaryCompareOp::Less => Some(seq![Instr::Op(OP_LESSTHAN)]),
            BinaryCompareOp::LessOrEqual => Some(seq![Instr::Op(OP_LESSTHANOREQUAL)]),
        },
        Type::Boolean => match op {
            BinaryCompareOp::Equal => Some(seq![Instr::Op(OP_NUMEQUAL)]),
            BinaryCompareOp::NotEqual => Some(seq![Instr::Op(OP_NUMNOTEQUAL)]),
            _ => None,
        },
        Type::String => match op {
            BinaryCompareOp::Equal => Some(seq![Instr::Op(OP_EQUAL)]),
            BinaryCompareOp::NotEqual => Some(seq![Instr::Op(OP_EQUAL), Instr::Op(OP_NOT)]),
            _ => None,
        },
        Type::Signature => None,
    }
}

/// What compiling an expression yields: the opcode fragment, and the
/// simulated stack afterward, which has gained exactly one net value — the
/// expression's result, unnamed, of the expression's type.
pub open spec fn compile_expr_spec(e: Expression, st: Seq<SlotModel>) -> Result<
    (Seq<Instr>, Seq<SlotModel>),
    CompileError,
>
    decreases e,
{
    match e {
        Expression::Variable(id) => resolve_spec(id@, st),
        Expression::NumberLiteral(n) => {
            if n < -NUM_LITERAL_MAX || n > NUM_LITERAL_MAX {
                Err(CompileError::NumericOverflow)
            } else {
                Ok((seq![Instr::PushNum(n as int)], st.push(anon(Type::Number))))
            }
        },
        Expression::BoolLiteral(b) => Ok(
            (
                seq![Instr::PushNum(if b { 1int } else { 0int })],
                st.push(anon(Type::Boolean)),
            ),
        ),
        Expression::StringLiteral(s) => {
            let bytes = encode_utf8(s@);
            if bytes.len() > PUSH_ELEMENT_MAX as int {
                Err(CompileError::NumericOverflow)
            } else {
                Ok((seq![Instr::PushData(bytes)], st.push(anon(Type::String))))
            }
        },
        Expression::MathExpression { lhs, operator, rhs } => match compile_expr_spec(*lhs, st) {
            Err(e1) => Err(e1),
            Ok((c1, st1)) => {
                if st1.last().ty != Type::Number {
                    Err(CompileError::TypeMismatch)
                } else {
                    match compile_expr_spec(*rhs, st1) {
                        Err(e1) => Err(e1),
                        Ok((c2, st2)) => {
                            if st2.last().ty != Type::Number {
                                Err(CompileError::TypeMismatch)
                            } else {
                                Ok(
                                    (
                                        c1 + c2 + seq![Instr::Op(math_opcode(operator))],
                                        st2.drop_last().drop_last().push(anon(Type::Number)),
                                    ),
                                )
                            }
                        },
                    }
                }
            },
        },
        Expression::CryptoVerify(id) => match resolve_spec(id@, st) {
            Err(e1) => Err(e1),
            Ok((c, st1)) => {
                if st1.last().ty != Type::Signature {
                    Err(CompileError::TypeMismatch)
                } else {
                    Ok((c + seq![Instr::Op(OP_CHECKSIG)], st1.drop_last().push(anon(Type::Boolean))))
                }
            },
        },
    }
}

/// What compiling a condition yields: both operands resolved as variable
/// references, the comparison opcode for their common type, and the boolean
/// negation where asked — one net boolean value on top of the stack.
pub open spec fn compile_cond_spec(c: ConditionExpression, st: Seq<SlotModel>) -> Result<
    (Seq<Instr>, Seq<SlotModel>),
    CompileError,
> {
    match resolve_spec(c.compare_expr.lhs@, st) {
        Err(e1) => Err(e1),
        Ok((cl, st1)) => match resolve_spec(c.compare_expr.rhs@, st1) {
            Err(e1) => Err(e1),
            Ok((cr, st2)) => {
                let tl = st2[st2.len() - 2].ty;
                let tr = st2.last().ty;
                if tl != tr {
                    Err(CompileError::TypeMismatch)
                } else {
                    match compare_code(c.compare_expr.operator, tl) {
                        None => Err(CompileError::TypeMismatch),
                        Some(ops) => {
                            let code = if c.negate {
                                cl + cr + ops + seq![Instr::Op(OP_NOT)]
                            } else {
                                cl + cr + ops
                            };
                            Ok((code, st2.drop_last().drop_last().push(anon(Type::Boolean))))
                        },
                    }
                }
            },
        },
    }
}

/// What compiling one statement yields, given whether it stands last in its
/// block: the opcode fragment and the stack afterward.
pub open spec fn compile_stmt_spec(s: Statement, st: Seq<SlotModel>, last: bool) -> Result<
    (Seq<Instr>, Seq<SlotModel>),
    CompileError,
>
    decreases s,
{
    match s {
        Statement::VarDeclarationStatement { identifier, expr } => {
            match compile_expr_spec(expr, st) {
                Err(e1) => Err(e1),
                Ok((c, st1)) => Ok(
                    (
                        c,
                        st1.drop_last().push(
                            SlotModel { name: Some(identifier@), ty: st1.last().ty },
                        ),
                    ),
                ),
            }
        },
        Statement::ExprStatement(e) => match compile_expr_spec(e, st) {
            Err(e1) => Err(e1),
            Ok((c, st1)) => {
                if last {
                    Ok((c, st1))
                } else {
                    Ok((c + seq![Instr::Op(OP_DROP)], st1.drop_last()))
                }
            },
        },
        Statement::VerifyStatement(e) => match compile_expr_spec(e, st) {
            Err(e1) => Err(e1),
            Ok((c, st1)) => {
                if st1.last().ty != Type::Boolean {
                    Err(CompileError::TypeMismatch)
                } else {
                    Ok((c + seq![Instr::Op(OP_VERIFY)], st1.drop_last()))
                }
            },
        },
        Statement::AfterStatement(h) => match locktime_spec(h as int, LocktimeOp::Cltv) {
            Err(e1) => Err(e1),
            Ok(c) => Ok((c, st)),
        },
        Statement::OlderStatement(b) => match locktime_spec(b as int, LocktimeOp::Csv) {
            Err(e1) => Err(e1),
            Ok(c) => Ok((c, st)),
        },
        Statement::BlockStatement(ss) => match compile_stmts_spec(ss@, st) {
            Err(e1) => Err(e1),
            Ok((c, st1)) => Ok((c, anonymize_from(st1, st.len() as int))),
        },
        Statement::IfStatement { condition_expr, if_block, else_block } => {
            match compile_cond_spec(condition_expr, st) {
                Err(e1) => Err(e1),
                Ok((cc, st1)) => {
                    let base = st1.drop_last();
                    match compile_stmts_spec(if_block@, base) {
                        Err(e1) => Err(e1),
                        Ok((ct, st_t)) => {
                            let else_result = match else_block {
                                Some(eb) => compile_stmts_spec(eb@, base),
                                None => Ok((Seq::<Instr>::empty(), base)),
                            };
                            match else_result {
                                Err(e1) => Err(e1),
                                Ok((cf, st_f)) => {
                                    if shape_of(st_t) != shape_of(st_f) {
                                        Err(CompileError::UnbalancedBranches)
                                    } else {
                                        let tail = if else_block is Some {
                                            seq![Instr::Op(OP_ELSE)] + cf + seq![
                                                Instr::Op(OP_ENDIF),
                                            ]
                                        } else {
                                            seq![Instr::Op(OP_ENDIF)]
                                        };
                                        Ok(
                                            (
                                                cc + seq![Instr::Op(OP_IF)] + ct + tail,
                                                anonymize_from(st_t, base.len() as int),
                                            ),
                                        )
                                    }
                                },
                            }
                        },
                    }
                },
            }
        },
    }
}

/// What compiling a statement sequence yields: each statement's fragment in
/// order, threading one stack through, the last statement knowing it is last.
pub open spec fn compile_stmts_spec(ss: Seq<Statement>, st: Seq<SlotModel>) -> Result<
    (Seq<Instr>, Seq<SlotModel>),
    CompileError,
>
    decreases ss,
{
    if ss.len() == 0 {
        Ok((Seq::<Instr>::empty(), st))
    } else {
        match compile_stmt_spec(ss[0], st, ss.len() == 1) {
            Err(e1) => Err(e1),
            Ok((c1, st1)) => match compile_stmts_spec(ss.drop_first(), st1) {
                Err(e1) => Err(e1),
                Ok((c2, st2)) => Ok((c1 + c2, st2)),
            },
        }
    }
}

/// The simulated stack before the script runs: the declared witness
/// parameters, in declaration order, the first declared at the bottom.
pub open spec fn initial_stack(params: Seq<StackParam>) -> Seq<SlotModel> {
    params.map_values(|p: StackParam| SlotModel { name: Some(p.identifier@), ty: p.ty })
}

/// What compiling a whole program yields: the statements compiled over the
/// seeded stack, then rewritten to the optimizer's fixed point.
pub open spec fn compile_spec(u: UTXO) -> Result<Seq<Instr>, CompileError> {
    if !identifiers_unique(u.input_stack@) {
        Err(CompileError::DuplicateIdentifier)
    } else {
        match compile_stmts_spec(u.output_script@, initial_stack(u.input_stack@)) {
            Err(e1) => Err(e1),
            Ok((code, _)) => Ok(optimized(code)),
        }
    }
}

/// Law: compiling an expression that compiles pushes exactly one net value,
/// unnamed, onto the simulated stack, and every data push it emits fits the
/// element size limit.
pub proof fn lemma_expr_effect(e: Expression, st: Seq<SlotModel>)
    ensures
        compile_expr_spec(e, st) matches Ok(p) ==> p.1.len() == st.len() + 1 && p.1.drop_last()
            == st && p.1.last().name is None && well_sized(p.0),
    decreases e,
{
    match e {
        Expression::Variable(id) => {
            if compile_expr_spec(e, st) is Ok {
                crate::stack::lemma_find_depth_in_range(st, id@);
                let p = resolve_spec(id@, st)->Ok_0;
                assert(p.1.drop_last() =~= st);
                assert(well_sized(p.0));
            }
        },
        Expression::NumberLiteral(n) => {
            if compile_expr_spec(e, st) is Ok {
                let p = compile_expr_spec(e, st)->Ok_0;
                assert(p.1.drop_last() =~= st);
                assert(well_sized(p.0));
            }
        },
        Expression::BoolLiteral(b) => {
            let p = compile_expr_spec(e, st)->Ok_0;
            assert(p.1.drop_last() =~= st);
            assert(well_sized(p.0));
        },
        Expression::StringLiteral(s) => {
            if compile_expr_spec(e, st) is Ok {
                let p = compile_expr_spec(e, st)->Ok_0;
                assert(p.1.drop_last() =~= st);
                assert(well_sized(p.0));
            }
        },
        Expression::MathExpression { lhs, operator, rhs } => {
            lemma_expr_effect(*lhs, st);
            if compile_expr_spec(*lhs, st) is Ok {
                let p1 = compile_expr_spec(*lhs, st)->Ok_0;
                if p1.1.last().ty == Type::Number {
                    lemma_expr_effect(*rhs, p1.1);
                    if compile_expr_spec(*rhs, p1.1) is Ok {
                        let p2 = compile_expr_spec(*rhs, p1.1)->Ok_0;
                        if p2.1.last().ty == Type::Number {
                            let p = compile_expr_spec(e, st)->Ok_0;
                            assert(p2.1.drop_last() == p1.1);
                            assert(p.1.drop_last() =~= st);
                            lemma_well_sized_concat(p1.0, p2.0);
                            assert(well_sized(seq![Instr::Op(math_opcode(operator))]));
                            lemma_well_sized_concat(
                                p1.0 + p2.0,
                                seq![Instr::Op(math_opcode(operator))],
                            );
                        }
                    }
                }
            }
        },
        Expression::CryptoVerify(id) => {
            if resolve_spec(id@, st) is Ok {
                crate::stack::lemma_find_depth_in_range(st, id@);
                let p1 = resolve_spec(id@, st)->Ok_0;
                if p1.1.last().ty == Type::Signature {
                    let p = compile_expr_spec(e, st)->Ok_0;
                    assert(p1.1.drop_last() =~= st);
                    assert(p.1.drop_last() =~= st);
                    assert(well_sized(p1.0));
                    assert(well_sized(seq![Instr::Op(OP_CHECKSIG)]));
                    lemma_well_sized_concat(p1.0, seq![Instr::Op(OP_CHECKSIG)]);
                }
            }
        },
    }
}

/// Law: compiling a condition that compiles consumes its two resolved
/// operands and leaves exactly one net boolean on top of the stack; its
/// fragment holds no data push beyond the size limit.
pub proof fn lemma_cond_effect(c: ConditionExpression, st: Seq<SlotModel>)
    ensures
        compile_cond_spec(c, st) matches Ok(p) ==> p.1.len() == st.len() + 1 && p.1.drop_last()
            == st && p.1.last() == anon(Type::Boolean) && well_sized(p.0),
{
    if resolve_spec(c.compare_expr.lhs@, st) is Ok {
        crate::stack::lemma_find_depth_in_range(st, c.compare_expr.lhs@);
        let p1 = resolve_spec(c.compare_expr.lhs@, st)->Ok_0;
        assert(p1.1.drop_last() =~= st);
        assert(well_sized(p1.0));
        if resolve_spec(c.compare_expr.rhs@, p1.1) is Ok {
            crate::stack::lemma_find_depth_in_range(p1.1, c.compare_expr.rhs@);
            let p2 = resolve_spec(c.compare_expr.rhs@, p1.1)->Ok_0;
            assert(p2.1.drop_last() =~= p1.1);
            assert(well_sized(p2.0));
            if compile_cond_spec(c, st) is Ok {
                let p = compile_cond_spec(c, st)->Ok_0;
                assert(p.1.drop_last() =~= st);
                let ops = compare_code(c.compare_expr.operator, p2.1[p2.1.len() - 2].ty)->Some_0;
                assert(well_sized(ops));
                lemma_well_sized_concat(p1.0, p2.0);
                lemma_well_sized_concat(p1.0 + p2.0, ops);
                if c.negate {
                    assert(well_sized(seq![Instr::Op(OP_NOT)]));
                    lemma_well_sized_concat(p1.0 + p2.0 + ops, seq![Instr::Op(OP_NOT)]);
                    assert(p.0 == p1.0 + p2.0 + ops + seq![Instr::Op(OP_NOT)]);
                }
            }
        }
    }
}

/// Law: a statement that compiles never pops a slot below its block's entry
/// depth — what stood on the stack before it still stands, unchanged, beneath
/// whatever it added — and its fragment's data pushes fit the size limit.
pub proof fn lemma_stmt_effect(s: Statement, st: Seq<SlotModel>, last: bool)
    ensures
        compile_stmt_spec(s, st, last) matches Ok(p) ==> p.1.len() >= st.len() && p.1.take(
            st.len() as int,
        ) == st && well_sized(p.0),
    decreases s,
{
    assert(st.take(st.len() as int) =~= st);
    match s {
        Statement::VarDeclarationStatement { identifier, expr } => {
            lemma_expr_effect(expr, st);
            if compile_expr_spec(expr, st) is Ok {
                let p = compile_stmt_spec(s, st, last)->Ok_0;
                assert(p.1.take(st.len() as int) =~= st);
            }
        },
        Statement::ExprStatement(e) => {
            lemma_expr_effect(e, st);
            if compile_expr_spec(e, st) is Ok {
                let p1 = compile_expr_spec(e, st)->Ok_0;
                let p = compile_stmt_spec(s, st, last)->Ok_0;
                assert(p.1.take(st.len() as int) =~= st);
                if !last {
                    assert(well_sized(seq![Instr::Op(OP_DROP)]));
                    lemma_well_sized_concat(p1.0, seq![Instr::Op(OP_DROP)]);
                }
            }
        },
        Statement::VerifyStatement(e) => {
            lemma_expr_effect(e, st);
            if compile_stmt_spec(s, st, last) is Ok {
                let p = compile_stmt_spec(s, st, last)->Ok_0;
                assert(p.1.take(st.len() as int) =~= st);
                let p1 = compile_expr_spec(e, st)->Ok_0;
                assert(well_sized(seq![Instr::Op(OP_VERIFY)]));
                lemma_well_sized_concat(p1.0, seq![Instr::Op(OP_VERIFY)]);
            }
        },
        Statement::AfterStatement(h) => {
            if compile_stmt_spec(s, st, last) is Ok {
                assert(well_sized(compile_stmt_spec(s, st, last)->Ok_0.0));
            }
        },
        Statement::OlderStatement(b) => {
            if compile_stmt_spec(s, st, last) is Ok {
                assert(well_sized(compile_stmt_spec(s, st, last)->Ok_0.0));
            }
        },
        Statement::BlockStatement(ss) => {
            lemma_stmts_effect(ss@, st);
            if compile_stmts_spec(ss@, st) is Ok {
                let p = compile_stmt_spec(s, st, last)->Ok_0;
                assert(p.1.take(st.len() as int) =~= st);
            }
        },
        Statement::IfStatement { condition_expr, if_block, else_block } => {
            lemma_cond_effect(condition_expr, st);
            if compile_cond_spec(condition_expr, st) is Ok {
                let pc = compile_cond_spec(condition_expr, st)->Ok_0;
                let base = pc.1.drop_last();
                assert(base == st);
                lemma_stmts_effect(if_block@, base);
                if compile_stmts_spec(if_block@, base) is Ok {
                    let pt = compile_stmts_spec(if_block@, base)->Ok_0;
                    let else_result = match else_block {
                        Some(eb) => compile_stmts_spec(eb@, base),
                        None => Ok::<_, CompileError>((Seq::<Instr>::empty(), base)),
                    };
                    if else_block is Some {
                        lemma_stmts_effect(else_block->Some_0@, base);
                    }
                    if else_result is Ok && shape_of(pt.1) == shape_of(else_result->Ok_0.1) {
                        let pf = else_result->Ok_0;
                        let p = compile_stmt_spec(s, st, last)->Ok_0;
                        assert(p.1.take(st.len() as int) =~= st);
                        assert(well_sized(seq![Instr::Op(OP_IF)]));
                        assert(well_sized(seq![Instr::Op(OP_ELSE)]));
                        assert(well_sized(seq![Instr::Op(OP_ENDIF)]));
                        lemma_well_sized_concat(pc.0, seq![Instr::Op(OP_IF)]);
                        lemma_well_sized_concat(pc.0 + seq![Instr::Op(OP_IF)], pt.0);
                        if else_block is Some {
                            lemma_well_sized_concat(seq![Instr::Op(OP_ELSE)], pf.0);
                            lemma_well_sized_concat(
                                seq![Instr::Op(OP_ELSE)] + pf.0,
                                seq![Instr::Op(OP_ENDIF)],
                            );
                            lemma_well_sized_concat(
                                pc.0 + seq![Instr::Op(OP_IF)] + pt.0,
                                seq![Instr::Op(OP_ELSE)] + pf.0 + seq![Instr::Op(OP_ENDIF)],
                            );
                        } else {
                            lemma_well_sized_concat(
                                pc.0 + seq![Instr::Op(OP_IF)] + pt.0,
                                seq![Instr::Op(OP_ENDIF)],
                            );
                        }
                    }
                }
            }
        },
    }
}

/// Law: a statement sequence that compiles leaves every slot that stood on
/// the stack at its start in place, and all its data pushes fit the limit.
pub proof fn lemma_stmts_effect(ss: Seq<Statement>, st: Seq<SlotModel>)
    ensures
        compile_stmts_spec(ss, st) matches Ok(p) ==> p.1.len() >= st.len() && p.1.take(
            st.len() as int,
        ) == st && well_sized(p.0),
    decreases ss,
{
    assert(st.take(st.len() as int) =~= st);
    if ss.len() == 0 {
        assert(well_sized(Seq::<Instr>::empty()));
    } else {
        lemma_stmt_effect(ss[0], st, ss.len() == 1);
        if compile_stmt_spec(ss[0], st, ss.len() == 1) is Ok {
            let p1 = compile_stmt_spec(ss[0], st, ss.len() == 1)->Ok_0;
            lemma_stmts_effect(ss.drop_first(), p1.1);
            if compile_stmts_spec(ss.drop_first(), p1.1) is Ok {
                let p2 = compile_stmts_spec(ss.drop_first(), p1.1)->Ok_0;
                lemma_well_sized_concat(p1.0, p2.0);
                assert(p2.1.take(st.len() as int) =~= st) by {
                    assert(p2.1.take(p1.1.len() as int) == p1.1);
                    assert forall|k: int| 0 <= k < st.len() implies p2.1[k] == st[k] by {
                        assert(p2.1.take(p1.1.len() as int)[k] == p1.1[k]);
                        assert(p1.1.take(st.len() as int)[k] == st[k]);
                    }
                }
            }
        }
    }
}


/// The opcodes realizing one comparison over operands of the given type, or
/// nothing where the type does not support the operator.
fn compare_ops(op: BinaryCompareOp, ty: Type) -> (r: Option<Vec<Instruction>>)
    ensures
        match compare_code(op, ty) {
            Some(c) => r matches Some(v) && v.deep_view() == c,
            None => r is None,
        },
{
    match ty {
        Type::Number => {
            let b = match op {
                BinaryCompareOp::Equal => OP_NUMEQUAL,
                BinaryCompareOp::NotEqual => OP_NUMNOTEQUAL,
                BinaryCompareOp::Greater => OP_GREATERTHAN,
                BinaryCompareOp::GreaterOrEqual => OP_GREATERTHANOREQUAL,
                BinaryCompareOp::Less => OP_LESSTHAN,
                BinaryCompareOp::LessOrEqual => OP_LESSTHANOREQUAL,
            };
            let v = vec![Instruction::Op(b)];
            proof {
                assert(v.deep_view() =~= seq![Instr::Op(b)]);
            }
            Some(v)
        },
        Type::Boolean => match op {
            BinaryCompareOp::Equal => {
                let v = vec![Instruction::Op(OP_NUMEQUAL)];
                proof {
                    assert(v.deep_view() =~= seq![Instr::Op(OP_NUMEQUAL)]);
                }
                Some(v)
            },
            BinaryCompareOp::NotEqual => {
                let v = vec![Instruction::Op(OP_NUMNOTEQUAL)];
                proof {
                    assert(v.deep_view() =~= seq![Instr::Op(OP_NUMNOTEQUAL)]);
                }
                Some(v)
            },
            _ => None,
        },
        Type::String => match op {
            BinaryCompareOp::Equal => {
                let v = vec![Instruction::Op(OP_EQUAL)];
                proof {
                    assert(v.deep_view() =~= seq![Instr::Op(OP_EQUAL)]);
                }
                Some(v)
            },
            BinaryCompareOp::NotEqual => {
                let v = vec![Instruction::Op(OP_EQUAL), Instruction::Op(OP_NOT)];
                proof {
                    assert(v.deep_view() =~= seq![Instr::Op(OP_EQUAL), Instr::Op(OP_NOT)]);
                }
                Some(v)
            },
            _ => None,
        },
        Type::Signature => None,
    }
}

/// Lowers one expression to an opcode fragment: a variable reference becomes
/// positional copies of its slot, a literal a minimal push, binary arithmetic
/// compiles its operands left to right and applies the operator post-order,
/// and a signature check resolves its operand and applies the check opcode.
/// Exactly one net value lands on the simulated stack.
pub fn compile_expr(expr: &Expression, stack: &mut SimulatedStack) -> (r: Result<
    Vec<Instruction>,
    CompileError,
>)
    ensures
        match compile_expr_spec(*expr, old(stack)@) {
            Ok(p) => r matches Ok(code) && code.deep_view() == p.0 && final(stack)@ == p.1,
            Err(e1) => r == Err::<Vec<Instruction>, CompileError>(e1) && stack_extends(
                final(stack)@,
                old(stack)@,
            ),
        },
    decreases *expr,
{
    match expr {
        Expression::Variable(id) => stack_resolver(id, stack),
        Expression::NumberLiteral(n) => {
            let mut code: Vec<Instruction> = Vec::new();
            match push_int(&mut code, *n) {
                Ok(()) => {},
                Err(e1) => {
                    return Err(e1);
                },
            }
            stack.push_anon(Type::Number);
            proof {
                assert(code.deep_view() =~= seq![Instr::PushNum(*n as int)]);
            }
            Ok(code)
        },
        Expression::BoolLiteral(b) => {
            let mut code: Vec<Instruction> = Vec::new();
            let val: i64 = if *b {
                1
            } else {
                0
            };
            match push_int(&mut code, val) {
                Ok(()) => {},
                Err(e1) => {
                    return Err(e1);
                },
            }
            stack.push_anon(Type::Boolean);
            proof {
                assert(code.deep_view() =~= seq![Instr::PushNum(val as int)]);
            }
            Ok(code)
        },
        Expression::StringLiteral(s) => {
            let bytes = vstd::slice::slice_to_vec(s.as_str().as_bytes());
            let ghost bv = bytes@;
            proof {
                assert(bv == encode_utf8(s@));
            }
            let mut code: Vec<Instruction> = Vec::new();
            match push_bytes(&mut code, bytes) {
                Ok(()) => {},
                Err(e1) => {
                    return Err(e1);
                },
            }
            stack.push_anon(Type::String);
            proof {
                assert(code.deep_view() =~= seq![Instr::PushData(encode_utf8(s@))]);
            }
            Ok(code)
        },
        Expression::MathExpression { lhs, operator, rhs } => {
            let ghost st0 = stack@;
            let mut code = match compile_expr(lhs, stack) {
                Ok(c) => c,
                Err(e1) => {
                    return Err(e1);
                },
            };
            proof {
                lemma_expr_effect(**lhs, st0);
                lemma_take_extends(stack@, st0);
            }
            if stack.top_ty() != Type::Number {
                return Err(CompileError::TypeMismatch);
            }
            let ghost st1 = stack@;
            let ghost c1 = code.deep_view();
            let mut code2 = match compile_expr(rhs, stack) {
                Ok(c) => c,
                Err(e1) => {
                    proof {
                        lemma_extends_trans(st0, st1, stack@);
                    }
                    return Err(e1);
                },
            };
            proof {
                lemma_expr_effect(**rhs, st1);
                lemma_take_extends(stack@, st1);
                lemma_extends_trans(st0, st1, stack@);
            }
            if stack.top_ty() != Type::Number {
                return Err(CompileError::TypeMismatch);
            }
            let ghost st2 = stack@;
            let ghost c2 = code2.deep_view();
            stack.pop_slot();
            stack.pop_slot();
            stack.push_anon(Type::Number);
            code.append(&mut code2);
            let opb = match *operator {
                BinaryMathOp::Add => OP_ADD,
                BinaryMathOp::Sub => OP_SUB,
            };
            push_math_binary(&mut code, opb);
            proof {
                assert(code.deep_view() =~= c1 + c2 + seq![Instr::Op(math_opcode(*operator))]);
            }
            Ok(code)
        },
        Expression::CryptoVerify(id) => {
            let ghost st0 = stack@;
            let mut code = match stack_resolver(id, stack) {
                Ok(c) => c,
                Err(e1) => {
                    return Err(e1);
                },
            };
            let ghost c1 = code.deep_view();
            proof {
                assert(stack_extends(stack@, st0));
            }
            if stack.top_ty() != Type::Signature {
                return Err(CompileError::TypeMismatch);
            }
            stack.pop_slot();
            stack.push_anon(Type::Boolean);
            push_crypto(&mut code, OP_CHECKSIG);
            proof {
                assert(code.deep_view() =~= c1 + seq![Instr::Op(OP_CHECKSIG)]);
            }
            Ok(code)
        },
    }
}

/// Lowers the boolean test of a conditional: both comparison operands are
/// bound identifiers, resolved in order, then compared by the opcode their
/// common type calls for, the verdict negated where asked. One net boolean
/// lands on top of the simulated stack, its two operands consumed.
pub fn compile_condition(cond: &ConditionExpression, stack: &mut SimulatedStack) -> (r: Result<
    Vec<Instruction>,
    CompileError,
>)
    ensures
        match compile_cond_spec(*cond, old(stack)@) {
            Ok(p) => r matches Ok(code) && code.deep_view() == p.0 && final(stack)@ == p.1,
            Err(e1) => r == Err::<Vec<Instruction>, CompileError>(e1) && stack_extends(
                final(stack)@,
                old(stack)@,
            ),
        },
{
    let ghost st0 = stack@;
    let mut code = match stack_resolver(&cond.compare_expr.lhs, stack) {
        Ok(c) => c,
        Err(e1) => {
            return Err(e1);
        },
    };
    let ghost c1 = code.deep_view();
    let ghost st1 = stack@;
    proof {
        assert(stack_extends(st1, st0));
    }
    let mut code2 = match stack_resolver(&cond.compare_expr.rhs, stack) {
        Ok(c) => c,
        Err(e1) => {
            return Err(e1);
        },
    };
    let ghost c2 = code2.deep_view();
    let ghost st2 = stack@;
    proof {
        assert(stack_extends(st2, st1));
        lemma_extends_trans(st0, st1, st2);
    }
    let n = stack.depth();
    let tl = stack.ty_at(n - 2);
    let tr = stack.top_ty();
    proof {
        assert(tl == st2[st2.len() - 2].ty);
        assert(tr == st2.last().ty);
    }
    if tl != tr {
        return Err(CompileError::TypeMismatch);
    }
    match compare_ops(cond.compare_expr.operator, tl) {
        None => Err(CompileError::TypeMismatch),
        Some(mut ops) => {
            let ghost ov = ops.deep_view();
            code.append(&mut code2);
            code.append(&mut ops);
            if cond.negate {
                push_math_unary(&mut code, OP_NOT);
                proof {
                    assert(code.deep_view() =~= c1 + c2 + ov + seq![Instr::Op(OP_NOT)]);
                }
            } else {
                proof {
                    assert(code.deep_view() =~= c1 + c2 + ov);
                }
            }
            stack.pop_slot();
            stack.pop_slot();
            stack.push_anon(Type::Boolean);
            Ok(code)
        },
    }
}


/// Whether two simulated stacks have the same shape: equally many slots, of
/// pairwise equal types.
fn shapes_equal(a: &SimulatedStack, b: &SimulatedStack) -> (r: bool)
    ensures
        r == (shape_of(a@) == shape_of(b@)),
{
    if a.depth() != b.depth() {
        proof {
            assert(shape_of(a@).len() != shape_of(b@).len());
        }
        return false;
    }
    let mut i: usize = 0;
    while i < a.depth()
        invariant
            i <= a@.len(),
            a@.len() == b@.len(),
            forall|k: int| 0 <= k < i ==> a@[k].ty == b@[k].ty,
        decreases a@.len() - i,
    {
        if a.ty_at(i) != b.ty_at(i) {
            proof {
                assert(shape_of(a@)[i as int] != shape_of(b@)[i as int]);
            }
            return false;
        }
        i += 1;
    }
    proof {
        assert(shape_of(a@) =~= shape_of(b@));
    }
    true
}

/// Lowers one statement, knowing whether it stands last in its block: a
/// declaration binds the value its expression leaves on top; an expression
/// statement discards its value unless it is the block's last; a conditional
/// forks the simulated stack, compiles both arms, and demands they agree on
/// the net shape; a locktime assertion delegates to the operand encoder; a
/// verify statement applies the target's hard-failure opcode; a nested block
/// opens a scope whose bindings end with it.
#[verifier::rlimit(100)]
pub fn compile_stmt(s: &Statement, stack: &mut SimulatedStack, last: bool) -> (r: Result<
    Vec<Instruction>,
    CompileError,
>)
    ensures
        match compile_stmt_spec(*s, old(stack)@, last) {
            Ok(p) => r matches Ok(code) && code.deep_view() == p.0 && final(stack)@ == p.1,
            Err(e1) => r == Err::<Vec<Instruction>, CompileError>(e1) && stack_extends(
                final(stack)@,
                old(stack)@,
            ),
        },
    decreases *s,
{
    match s {
        Statement::VarDeclarationStatement { identifier, expr } => {
            let ghost st0 = stack@;
            let code = match compile_expr(expr, stack) {
                Ok(c) => c,
                Err(e1) => {
                    return Err(e1);
                },
            };
            proof {
                lemma_expr_effect(*expr, st0);
            }
            stack.bind_top(identifier);
            Ok(code)
        },
        Statement::ExprStatement(e) => {
            let ghost st0 = stack@;
            let mut code = match compile_expr(e, stack) {
                Ok(c) => c,
                Err(e1) => {
                    return Err(e1);
                },
            };
            if !last {
                proof {
                    lemma_expr_effect(*e, st0);
                }
                let ghost c1 = code.deep_view();
                append_opcode(&mut code, OP_DROP);
                stack.pop_slot();
                proof {
                    assert(code.deep_view() =~= c1 + seq![Instr::Op(OP_DROP)]);
                }
            }
            Ok(code)
        },
        Statement::VerifyStatement(e) => {
            let ghost st0 = stack@;
            let mut code = match compile_expr(e, stack) {
                Ok(c) => c,
                Err(e1) => {
                    return Err(e1);
                },
            };
            proof {
                lemma_expr_effect(*e, st0);
                lemma_take_extends(stack@, st0);
            }
            if stack.top_ty() != Type::Boolean {
                return Err(CompileError::TypeMismatch);
            }
            let ghost c1 = code.deep_view();
            push_control_verify(&mut code);
            stack.pop_slot();
            proof {
                assert(code.deep_view() =~= c1 + seq![Instr::Op(OP_VERIFY)]);
            }
            Ok(code)
        },
        Statement::AfterStatement(h) => {
            let mut code: Vec<Instruction> = Vec::new();
            match push_locktime(&mut code, *h, LocktimeOp::Cltv) {
                Ok(()) => {},
                Err(e1) => {
                    return Err(e1);
                },
            }
            proof {
                let frag = locktime_spec(*h as int, LocktimeOp::Cltv)->Ok_0;
                assert(Seq::<Instr>::empty() + frag =~= frag);
            }
            Ok(code)
        },
        Statement::OlderStatement(b) => {
            let mut code: Vec<Instruction> = Vec::new();
            match push_locktime(&mut code, *b, LocktimeOp::Csv) {
                Ok(()) => {},
                Err(e1) => {
                    return Err(e1);
                },
            }
            proof {
                let frag = locktime_spec(*b as int, LocktimeOp::Csv)->Ok_0;
                assert(Seq::<Instr>::empty() + frag =~= frag);
            }
            Ok(code)
        },
        Statement::BlockStatement(ss) => {
            let entry = stack.depth();
            let code = match compile_stmts(ss, stack) {
                Ok(c) => c,
                Err(e1) => {
                    return Err(e1);
                },
            };
            stack.anonymize_above(entry);
            Ok(code)
        },
        Statement::IfStatement { condition_expr, if_block, else_block } => {
            let ghost st0 = stack@;
            let mut code = match compile_condition(condition_expr, stack) {
                Ok(c) => c,
                Err(e1) => {
                    return Err(e1);
                },
            };
            proof {
                lemma_cond_effect(*condition_expr, st0);
            }
            stack.pop_slot();
            proof {
                assert(stack@ == st0);
            }
            let ghost base = stack@;
            let entry = stack.depth();
            let mut branch_true = stack.fork();
            let mut ct = match compile_stmts(if_block, &mut branch_true) {
                Ok(c) => c,
                Err(e1) => {
                    return Err(e1);
                },
            };
            proof {
                lemma_stmts_effect(if_block@, base);
            }
            let branch_false: SimulatedStack;
            let mut cf_opt: Option<Vec<Instruction>> = None;
            match else_block {
                Some(eb) => {
                    let mut stf = stack.fork();
                    let cf = match compile_stmts(eb, &mut stf) {
                        Ok(c) => c,
                        Err(e1) => {
                            return Err(e1);
                        },
                    };
                    proof {
                        lemma_stmts_effect(eb@, base);
                    }
                    branch_false = stf;
                    cf_opt = Some(cf);
                },
                None => {
                    branch_false = stack.fork();
                },
            }
            if !shapes_equal(&branch_true, &branch_false) {
                return Err(CompileError::UnbalancedBranches);
            }
            // The merged stack: the base, then the net slots of the arms,
            // their names out of scope since either arm may have bound them.
            let mut k = entry;
            while k < branch_true.depth()
                invariant
                    entry <= k,
                    k <= branch_true@.len(),
                    entry == base.len(),
                    branch_true@.len() >= base.len(),
                    branch_true@.take(base.len() as int) == base,
                    stack@.len() == k,
                    forall|m: int| 0 <= m < entry ==> stack@[m] == base[m],
                    forall|m: int|
                        entry <= m < k ==> stack@[m] == (SlotModel {
                            name: None,
                            ty: branch_true@[m].ty,
                        }),
                decreases branch_true@.len() - k,
            {
                let ty = branch_true.ty_at(k);
                stack.push_anon(ty);
                k += 1;
            }
            proof {
                assert(stack@ =~= anonymize_from(branch_true@, base.len() as int)) by {
                    assert forall|m: int|
                        0 <= m < branch_true@.len() implies stack@[m] == anonymize_from(
                        branch_true@,
                        base.len() as int,
                    )[m] by {
                        if m < base.len() {
                            assert(branch_true@.take(base.len() as int)[m] == branch_true@[m]);
                        }
                    }
                }
            }
            let ghost cc = code.deep_view();
            let ghost ctv = ct.deep_view();
            append_opcode(&mut code, OP_IF);
            code.append(&mut ct);
            proof {
                assert(code.deep_view() =~= cc.push(Instr::Op(OP_IF)) + ctv);
                assert(cc.push(Instr::Op(OP_IF)) + ctv =~= cc + seq![Instr::Op(OP_IF)] + ctv);
            }
            match cf_opt {
                Some(mut cf) => {
                    let ghost cfv = cf.deep_view();
                    let ghost pre = code.deep_view();
                    append_opcode(&mut code, OP_ELSE);
                    code.append(&mut cf);
                    proof {
                        assert(code.deep_view() =~= pre.push(Instr::Op(OP_ELSE)) + cfv);
                    }
                    append_opcode(&mut code, OP_ENDIF);
                    proof {
                        assert(code.deep_view() =~= (pre.push(Instr::Op(OP_ELSE)) + cfv).push(
                            Instr::Op(OP_ENDIF),
                        ));
                        assert(code.deep_view() =~= cc + seq![Instr::Op(OP_IF)] + ctv + (seq![
                            Instr::Op(OP_ELSE),
                        ] + cfv + seq![Instr::Op(OP_ENDIF)]));
                    }
                },
                None => {
                    let ghost pre = code.deep_view();
                    append_opcode(&mut code, OP_ENDIF);
                    proof {
                        assert(code.deep_view() =~= pre.push(Instr::Op(OP_ENDIF)));
                        assert(code.deep_view() =~= cc + seq![Instr::Op(OP_IF)] + ctv + seq![
                            Instr::Op(OP_ENDIF),
                        ]);
                    }
                },
            }
            Ok(code)
        },
    }
}

/// Compiles a statement sequence in order, threading one simulated stack
/// through, the final statement knowing it is the block's last.
pub fn compile_stmts(stmts: &Vec<Statement>, stack: &mut SimulatedStack) -> (r: Result<
    Vec<Instruction>,
    CompileError,
>)
    ensures
        match compile_stmts_spec(stmts@, old(stack)@) {
            Ok(p) => r matches Ok(code) && code.deep_view() == p.0 && final(stack)@ == p.1,
            Err(e1) => r == Err::<Vec<Instruction>, CompileError>(e1) && stack_extends(
                final(stack)@,
                old(stack)@,
            ),
        },
    decreases stmts@,
{
    let mut code: Vec<Instruction> = Vec::new();
    let mut i: usize = 0;
    proof {
        assert(stmts@.skip(0) =~= stmts@);
        if compile_stmts_spec(stmts@, stack@) is Ok {
            let p = compile_stmts_spec(stmts@, stack@)->Ok_0;
            assert(Seq::<Instr>::empty() + p.0 =~= p.0);
        }
    }
    while i < stmts.len()
        invariant
            i <= stmts.len(),
            stack_extends(stack@, old(stack)@),
            compile_stmts_spec(stmts@, old(stack)@) == (match compile_stmts_spec(
                stmts@.skip(i as int),
                stack@,
            ) {
                Ok(p) => Ok::<(Seq<Instr>, Seq<SlotModel>), CompileError>(
                    (code.deep_view() + p.0, p.1),
                ),
                Err(e1) => Err(e1),
            }),
        decreases stmts@.len() - i,
    {
        let ghost j = i as int;
        let ghost st_i = stack@;
        let ghost code0 = code.deep_view();
        proof {
            assert(stmts@.skip(j)[0] == stmts@[j]);
            assert(stmts@.skip(j).drop_first() =~= stmts@.skip(j + 1));
        }
        let last = i + 1 == stmts.len();
        let mut frag = match compile_stmt(&stmts[i], stack, last) {
            Ok(c) => c,
            Err(e1) => {
                proof {
                    lemma_extends_trans(old(stack)@, st_i, stack@);
                }
                return Err(e1);
            },
        };
        let ghost fv = frag.deep_view();
        code.append(&mut frag);
        proof {
            assert(code.deep_view() =~= code0 + fv);
            lemma_stmt_effect(stmts@[j], st_i, last);
            lemma_take_extends(stack@, st_i);
            lemma_extends_trans(old(stack)@, st_i, stack@);
            let p1 = compile_stmt_spec(stmts@[j], st_i, last)->Ok_0;
            if compile_stmts_spec(stmts@.skip(j + 1), p1.1) is Ok {
                let q = compile_stmts_spec(stmts@.skip(j + 1), p1.1)->Ok_0;
                assert((code0 + p1.0) + q.0 =~= code0 + (p1.0 + q.0));
            }
        }
        i += 1;
    }
    proof {
        assert(stmts@.skip(stmts@.len() as int) =~= Seq::<Statement>::empty());
        assert(code.deep_view() + Seq::<Instr>::empty() =~= code.deep_view());
    }
    Ok(code)
}

/// Lowers a conditional into the target's branch opcodes: condition first,
/// then the branch-open opcode, the first arm, the branch-else opcode and the
/// second arm where one exists, and the branch-close opcode.
pub fn push_control_if(
    script: &mut Vec<Instruction>,
    condition_expr: ConditionExpression,
    if_block: Vec<Statement>,
    else_block: Option<Vec<Statement>>,
    stack: &mut SimulatedStack,
) -> (r: Result<(), CompileError>)
    ensures
        match compile_stmt_spec(
            Statement::IfStatement { condition_expr, if_block, else_block },
            old(stack)@,
            false,
        ) {
            Ok(p) => r is Ok && final(script).deep_view() == old(script).deep_view() + p.0
                && final(stack)@ == p.1,
            Err(e1) => r == Err::<(), CompileError>(e1) && final(script).deep_view() == old(
                script,
            ).deep_view() && stack_extends(final(stack)@, old(stack)@),
        },
{
    let stmt = Statement::IfStatement { condition_expr, if_block, else_block };
    let mut frag = match compile_stmt(&stmt, stack, false) {
        Ok(c) => c,
        Err(e1) => {
            return Err(e1);
        },
    };
    script.append(&mut frag);
    Ok(())
}


/// The compiled program: the optimized instruction sequence, its byte-exact
/// serialization, and the hexadecimal and disassembly renderings of those
/// bytes.
pub struct CompiledProgram {
    pub code: Vec<Instruction>,
    pub script: Vec<u8>,
    pub hex_text: String,
    pub assembly_text: String,
}

impl CompiledProgram {
    /// The raw bytes of the program.
    pub fn bytes(&self) -> (r: &Vec<u8>)
        ensures
            r@ == self.script@,
    {
        &self.script
    }

    /// The lowercase hexadecimal rendering of the bytes.
    pub fn hex(&self) -> (r: &String)
        ensures
            r@ == self.hex_text@,
    {
        &self.hex_text
    }

    /// The disassembly rendering of the bytes.
    pub fn assembly(&self) -> (r: &String)
        ensures
            r@ == self.assembly_text@,
    {
        &self.assembly_text
    }

    /// The optimized instruction sequence.
    pub fn instructions(&self) -> (r: &Vec<Instruction>)
        ensures
            r@ == self.code@,
    {
        &self.code
    }
}

/// Compiles a whole program: builds the stack-parameter table, seeds the
/// simulated stack with the declared witness parameters, compiles the
/// statement sequence, rewrites the instructions to the optimizer's fixed
/// point, and serializes and renders the result. No partial output is ever
/// returned: any error aborts the whole compilation. The selector names the
/// target's binary dialect; the one dialect implemented here is the
/// standardized opcode table, whatever the pragma calls it, so the output
/// depends on the program alone.
pub fn compile(utxo: &UTXO, target: &str) -> (r: Result<CompiledProgram, CompileError>)
    ensures
        match compile_spec(*utxo) {
            Ok(instrs) => r matches Ok(p) && p.code.deep_view() == instrs && p.script@ == bytes_of(
                instrs,
            ) && p.hex_text@ == hex_of(p.script@) && p.assembly_text@ == disassembly_of(p.script@),
            Err(e1) => r == Err::<CompiledProgram, CompileError>(e1),
        },
{
    let table = match stack_table(&utxo.input_stack) {
        Ok(t) => t,
        Err(e1) => {
            return Err(e1);
        },
    };
    let mut stack = SimulatedStack { slots: Vec::new() };
    let mut i: usize = 0;
    while i < table.entries.len()
        invariant
            i <= table.entries@.len(),
            table@ == utxo.input_stack@,
            stack@.len() == i,
            forall|k: int|
                0 <= k < i ==> stack@[k] == (SlotModel {
                    name: Some(utxo.input_stack@[k].identifier@),
                    ty: utxo.input_stack@[k].ty,
                }),
        decreases table.entries@.len() - i,
    {
        let entry = &table.entries[i];
        let ghost before = stack@;
        stack.slots.push(Slot { name: Some(entry.identifier.clone()), ty: entry.ty });
        proof {
            assert(stack.slots.deep_view() =~= before.push(
                SlotModel { name: Some(entry.identifier@), ty: entry.ty },
            ));
        }
        i += 1;
    }
    proof {
        assert(stack@ =~= initial_stack(utxo.input_stack@));
    }
    let ghost st0 = stack@;
    let raw = match compile_stmts(&utxo.output_script, &mut stack) {
        Ok(c) => c,
        Err(e1) => {
            return Err(e1);
        },
    };
    proof {
        lemma_stmts_effect(utxo.output_script@, st0);
        crate::optimize::lemma_optimized_sized(raw.deep_view());
    }
    let code = opcode_optimizer(raw);
    let script = serialize(&code);
    let hex_text = to_hex(&script);
    let assembly_text = render_disassembly(&script);
    Ok(CompiledProgram { code, script, hex_text, assembly_text })
}

/// Law: a conditional whose arms both compile succeeds exactly when the arms
/// agree on the net shape they leave on the stack — the same count and types
/// of net-pushed values — and fails with `UnbalancedBranches` exactly when
/// they disagree. The absent arm of a one-armed conditional counts as an arm
/// that leaves the stack as it found it.
pub proof fn lemma_if_balance(
    condition_expr: ConditionExpression,
    if_block: Vec<Statement>,
    else_block: Option<Vec<Statement>>,
    st: Seq<SlotModel>,
    last: bool,
)
    requires
        compile_cond_spec(condition_expr, st) is Ok,
        compile_stmts_spec(if_block@, st) is Ok,
        else_block matches Some(eb) ==> compile_stmts_spec(eb@, st) is Ok,
    ensures
        ({
            let s = Statement::IfStatement { condition_expr, if_block, else_block };
            let st_t = compile_stmts_spec(if_block@, st)->Ok_0.1;
            let st_f = match else_block {
                Some(eb) => compile_stmts_spec(eb@, st)->Ok_0.1,
                None => st,
            };
            let net_t = st_t.skip(st.len() as int);
            let net_f = st_f.skip(st.len() as int);
            &&& (compile_stmt_spec(s, st, last) is Ok <==> shape_of(net_t) == shape_of(net_f))
            &&& (shape_of(net_t) != shape_of(net_f) ==> compile_stmt_spec(s, st, last) == Err::<
                (Seq<Instr>, Seq<SlotModel>),
                CompileError,
            >(CompileError::UnbalancedBranches))
        }),
{
    lemma_cond_effect(condition_expr, st);
    let base = compile_cond_spec(condition_expr, st)->Ok_0.1.drop_last();
    assert(base == st);
    lemma_stmts_effect(if_block@, st);
    let st_t = compile_stmts_spec(if_block@, st)->Ok_0.1;
    let st_f = if else_block is Some {
        compile_stmts_spec(else_block->Some_0@, st)->Ok_0.1
    } else {
        st
    };
    if else_block is Some {
        lemma_stmts_effect(else_block->Some_0@, st);
    } else {
        assert(st.take(st.len() as int) =~= st);
        assert(st.skip(st.len() as int) =~= Seq::<SlotModel>::empty());
    }
    let net_t = st_t.skip(st.len() as int);
    let net_f = st_f.skip(st.len() as int);
    assert(shape_of(st_t) == shape_of(st_f) <==> shape_of(net_t) == shape_of(net_f)) by {
        if shape_of(st_t) == shape_of(st_f) {
            assert(shape_of(net_t) =~= shape_of(net_f)) by {
                assert(shape_of(st_t).len() == st_t.len());
                assert forall|k: int| 0 <= k < net_t.len() implies shape_of(net_t)[k] == shape_of(
                    net_f,
                )[k] by {
                    assert(shape_of(st_t)[k + st.len()] == st_t[k + st.len()].ty);
                    assert(shape_of(st_f)[k + st.len()] == st_f[k + st.len()].ty);
                }
            }
        }
        if shape_of(net_t) == shape_of(net_f) {
            assert(shape_of(net_t).len() == net_t.len());
            assert(shape_of(net_f).len() == net_f.len());
            assert(net_t.len() == st_t.len() - st.len());
            assert(net_f.len() == st_f.len() - st.len());
            assert(st_t.len() == st_f.len());
            assert(shape_of(st_t) =~= shape_of(st_f)) by {
                assert forall|k: int| 0 <= k < st_t.len() implies shape_of(st_t)[k] == shape_of(
                    st_f,
                )[k] by {
                    if k < st.len() {
                        assert(st_t.take(st.len() as int)[k] == st[k]);
                        assert(st_f.take(st.len() as int)[k] == st[k]);
                    } else {
                        assert(shape_of(net_t)[k - st.len()] == net_t[k - st.len()].ty);
                        assert(shape_of(net_f)[k - st.len()] == net_f[k - st.len()].ty);
                        assert(net_t[k - st.len()] == st_t[k]);
                        assert(net_f[k - st.len()] == st_f[k]);
                    }
                }
            }
        }
    }
}


} // verus!
