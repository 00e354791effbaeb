//! Unit tests: the parameter table, the resolver, the locktime encoder, the
//! optimizer, the exact byte output of small programs, and every error
//! variant of the taxonomy.

use bithoven::ast::{
    BinaryCompareOp, BinaryMathOp, CompareExpression, ConditionExpression, Expression, StackParam,
    Statement, Type, UTXO,
};
use bithoven::compile::{
    compile, push_bytes, push_compare, push_int, push_locktime, LocktimeOp,
};
use bithoven::error::CompileError;
use bithoven::instr::{
    Instruction, OP_ADD, OP_CHECKSIG, OP_CHECKSIGVERIFY, OP_CLTV, OP_CSV, OP_DROP, OP_DUP,
    OP_EQUAL, OP_EQUALVERIFY, OP_NUMEQUAL, OP_NUMEQUALVERIFY, OP_PICK, OP_VERIFY,
};
use bithoven::optimize::opcode_optimizer;
use bithoven::stack::{stack_resolver, SimulatedStack, Slot};
use bithoven::table::stack_table;
use bithoven::terminal::{Contract, Crypto, Math};

fn param(name: &str, ty: Type) -> StackParam {
    StackParam { identifier: name.to_string(), ty }
}

fn cond(lhs: &str, op: BinaryCompareOp, rhs: &str) -> ConditionExpression {
    ConditionExpression {
        negate: false,
        compare_expr: CompareExpression {
            lhs: lhs.to_string(),
            operator: op,
            rhs: rhs.to_string(),
        },
    }
}

fn utxo(params: Vec<StackParam>, body: Vec<Statement>) -> UTXO {
    UTXO { input_stack: params, output_script: body }
}

#[test]
fn test_stack_table_declared_types() {
    let params = vec![param("amount", Type::Number), param("owner_sig", Type::Signature)];
    let table = stack_table(&params).unwrap();
    assert_eq!(table.lookup(&"amount".to_string()), Ok(Type::Number));
    assert_eq!(table.lookup(&"owner_sig".to_string()), Ok(Type::Signature));
    assert_eq!(
        table.lookup(&"missing".to_string()),
        Err(CompileError::UndeclaredIdentifier)
    );
}

#[test]
fn test_stack_table_duplicate_identifier() {
    let params = vec![param("x", Type::Number), param("x", Type::String)];
    assert_eq!(stack_table(&params).err(), Some(CompileError::DuplicateIdentifier));
}

#[test]
fn test_balanced_branches_compile() {
    let program = utxo(
        vec![param("a", Type::Number), param("b", Type::Number)],
        vec![Statement::IfStatement {
            condition_expr: cond("a", BinaryCompareOp::Equal, "b"),
            if_block: vec![Statement::ExprStatement(Expression::NumberLiteral(5))],
            else_block: Some(vec![Statement::ExprStatement(Expression::NumberLiteral(9))]),
        }],
    );
    assert!(compile(&program, "bitcoin").is_ok());
}

#[test]
fn test_unbalanced_branches_fail() {
    let program = utxo(
        vec![param("a", Type::Number), param("b", Type::Number)],
        vec![Statement::IfStatement {
            condition_expr: cond("a", BinaryCompareOp::Equal, "b"),
            if_block: vec![Statement::ExprStatement(Expression::NumberLiteral(5))],
            else_block: Some(vec![]),
        }],
    );
    assert_eq!(compile(&program, "bitcoin").err(), Some(CompileError::UnbalancedBranches));
}

#[test]
fn test_one_armed_conditional_balances_against_empty() {
    let program = utxo(
        vec![param("a", Type::Number), param("b", Type::Number)],
        vec![Statement::IfStatement {
            condition_expr: cond("a", BinaryCompareOp::Equal, "b"),
            if_block: vec![Statement::ExprStatement(Expression::NumberLiteral(5))],
            else_block: None,
        }],
    );
    assert_eq!(compile(&program, "bitcoin").err(), Some(CompileError::UnbalancedBranches));
}

#[test]
fn test_optimizer_rewrites_check_verify_pairs() {
    let input = vec![
        Instruction::Op(OP_EQUAL),
        Instruction::Op(OP_VERIFY),
        Instruction::Op(OP_NUMEQUAL),
        Instruction::Op(OP_VERIFY),
    ];
    let out = opcode_optimizer(input);
    assert_eq!(
        out,
        vec![Instruction::Op(OP_EQUALVERIFY), Instruction::Op(OP_NUMEQUALVERIFY)]
    );
}

#[test]
fn test_optimizer_idempotent() {
    let input = vec![
        Instruction::PushNum(3),
        Instruction::Op(OP_EQUAL),
        Instruction::Op(OP_VERIFY),
        Instruction::Op(OP_DUP),
        Instruction::Op(OP_CHECKSIG),
        Instruction::Op(OP_VERIFY),
    ];
    let once = opcode_optimizer(input);
    let twice = opcode_optimizer(once.clone());
    assert_eq!(once, twice);
}

#[test]
fn test_absolute_timelock_exact_bytes() {
    let program = utxo(vec![], vec![Statement::AfterStatement(100000)]);
    let output = compile(&program, "bitcoin").unwrap();
    // The minimal push of 100000 is three little-endian magnitude bytes.
    assert_eq!(output.bytes(), &vec![0x03, 0xa0, 0x86, 0x01, OP_CLTV, OP_DROP]);
    assert_eq!(output.hex(), "03a08601b175");
    let text = output.assembly();
    assert!(text.contains("OP_CLTV") || text.contains("OP_CHECKLOCKTIMEVERIFY"));
    assert!(text.contains("OP_DROP"));
}

#[test]
fn test_absolute_timelock_out_of_range() {
    let program = utxo(vec![], vec![Statement::AfterStatement(500000000)]);
    assert_eq!(compile(&program, "bitcoin").err(), Some(CompileError::LocktimeOutOfRange));
    let boundary = utxo(vec![], vec![Statement::AfterStatement(499999999)]);
    assert!(compile(&boundary, "bitcoin").is_ok());
}

#[test]
fn test_relative_timelock_exact_bytes() {
    let program = utxo(vec![], vec![Statement::OlderStatement(144)]);
    let output = compile(&program, "bitcoin").unwrap();
    // 144 sets the sign bit of its single magnitude byte, so the minimal
    // encoding appends one zero byte.
    assert_eq!(output.bytes(), &vec![0x02, 0x90, 0x00, OP_CSV, OP_DROP]);
    let text = output.assembly();
    assert!(text.contains("OP_CSV") || text.contains("OP_CHECKSEQUENCEVERIFY"));
    assert!(text.contains("OP_DROP"));
}

#[test]
fn test_relative_timelock_bounds() {
    let ok = utxo(vec![], vec![Statement::OlderStatement(65535)]);
    assert!(compile(&ok, "bitcoin").is_ok());
    let too_far = utxo(vec![], vec![Statement::OlderStatement(65536)]);
    assert_eq!(compile(&too_far, "bitcoin").err(), Some(CompileError::LocktimeOutOfRange));
}

#[test]
fn test_push_locktime_fragment() {
    let mut script: Vec<Instruction> = Vec::new();
    push_locktime(&mut script, 65535, LocktimeOp::Csv).unwrap();
    assert_eq!(
        script,
        vec![
            Instruction::PushNum(65535),
            Instruction::Op(OP_CSV),
            Instruction::Op(OP_DROP),
        ]
    );
    let mut other: Vec<Instruction> = Vec::new();
    assert_eq!(
        push_locktime(&mut other, 65536, LocktimeOp::Csv),
        Err(CompileError::LocktimeOutOfRange)
    );
    assert!(other.is_empty());
}

#[test]
fn test_single_signature_canonicalizes_to_checksigverify() {
    let program = utxo(
        vec![param("pk", Type::Signature)],
        vec![Statement::VerifyStatement(Expression::CryptoVerify("pk".to_string()))],
    );
    let output = compile(&program, "bitcoin").unwrap();
    assert_eq!(
        output.instructions(),
        &vec![Instruction::Op(OP_DUP), Instruction::Op(OP_CHECKSIGVERIFY)]
    );
    let text = output.assembly();
    assert!(text.contains("OP_CHECKSIGVERIFY"));
    assert!(!text.contains("OP_CHECKSIG OP_VERIFY"));
    assert_eq!(output.bytes(), &vec![OP_DUP, OP_CHECKSIGVERIFY]);
}

#[test]
fn test_htlc_branch_opcode_order() {
    let program = utxo(
        vec![
            param("claim_round", Type::Number),
            param("agreed_round", Type::Number),
            param("sig_coop", Type::Signature),
            param("sig_refund", Type::Signature),
        ],
        vec![Statement::IfStatement {
            condition_expr: cond("claim_round", BinaryCompareOp::Equal, "agreed_round"),
            if_block: vec![Statement::VerifyStatement(Expression::CryptoVerify(
                "sig_coop".to_string(),
            ))],
            else_block: Some(vec![
                Statement::OlderStatement(144),
                Statement::VerifyStatement(Expression::CryptoVerify("sig_refund".to_string())),
            ]),
        }],
    );
    let output = compile(&program, "bitcoin").unwrap();
    let text = output.assembly().clone();
    let compare_at = text.find("OP_NUMEQUAL").expect("comparison opcode");
    let if_at = text.find("OP_IF").expect("branch open");
    let coop_at = text.find("OP_CHECKSIGVERIFY").expect("cooperative path");
    let else_at = text.find("OP_ELSE").expect("branch else");
    let csv_at = text.find("OP_CSV").expect("relative locktime check");
    let drop_at = text[csv_at..].find("OP_DROP").expect("operand drop") + csv_at;
    let refund_at = text[else_at..].find("OP_CHECKSIGVERIFY").expect("refund path") + else_at;
    let endif_at = text.find("OP_ENDIF").expect("branch close");
    assert!(compare_at < if_at);
    assert!(if_at < coop_at);
    assert!(coop_at < else_at);
    assert!(else_at < csv_at);
    assert!(csv_at < drop_at);
    assert!(drop_at < refund_at);
    assert!(refund_at < endif_at);
}

#[test]
fn test_structurally_different_programs_differ() {
    let first = utxo(
        vec![param("pk", Type::Signature)],
        vec![Statement::VerifyStatement(Expression::CryptoVerify("pk".to_string()))],
    );
    let second = utxo(
        vec![param("pk", Type::Signature)],
        vec![Statement::BlockStatement(vec![Statement::VerifyStatement(
            Expression::CryptoVerify("pk".to_string()),
        )])],
    );
    let third = utxo(
        vec![param("pk", Type::Signature)],
        vec![
            Statement::OlderStatement(1),
            Statement::VerifyStatement(Expression::CryptoVerify("pk".to_string())),
        ],
    );
    let a = compile(&first, "bitcoin").unwrap().hex().clone();
    let b = compile(&third, "bitcoin").unwrap().hex().clone();
    assert_ne!(a, b);
    // A bare statement and the same statement in a nested block emit the same
    // opcodes: the block is scope, not code.
    assert_eq!(a, compile(&second, "bitcoin").unwrap().hex().clone());
}

#[test]
fn test_undeclared_identifier() {
    let program = utxo(
        vec![],
        vec![Statement::VerifyStatement(Expression::CryptoVerify("nobody".to_string()))],
    );
    assert_eq!(compile(&program, "bitcoin").err(), Some(CompileError::UndeclaredIdentifier));
}

#[test]
fn test_numeric_overflow_literal() {
    let program = utxo(
        vec![],
        vec![Statement::ExprStatement(Expression::NumberLiteral(2147483648))],
    );
    assert_eq!(compile(&program, "bitcoin").err(), Some(CompileError::NumericOverflow));
    let boundary = utxo(
        vec![],
        vec![Statement::ExprStatement(Expression::NumberLiteral(2147483647))],
    );
    assert!(compile(&boundary, "bitcoin").is_ok());
}

#[test]
fn test_type_mismatch_variants() {
    // A signature check over a number.
    let wrong_check = utxo(
        vec![param("n", Type::Number)],
        vec![Statement::VerifyStatement(Expression::CryptoVerify("n".to_string()))],
    );
    assert_eq!(compile(&wrong_check, "bitcoin").err(), Some(CompileError::TypeMismatch));
    // Comparing values of two different types.
    let mixed = utxo(
        vec![param("n", Type::Number), param("s", Type::String)],
        vec![Statement::IfStatement {
            condition_expr: cond("n", BinaryCompareOp::Equal, "s"),
            if_block: vec![],
            else_block: None,
        }],
    );
    assert_eq!(compile(&mixed, "bitcoin").err(), Some(CompileError::TypeMismatch));
    // Ordered comparison over byte strings.
    let ordered = utxo(
        vec![param("a", Type::String), param("b", Type::String)],
        vec![Statement::IfStatement {
            condition_expr: cond("a", BinaryCompareOp::Greater, "b"),
            if_block: vec![],
            else_block: None,
        }],
    );
    assert_eq!(compile(&ordered, "bitcoin").err(), Some(CompileError::TypeMismatch));
    // Arithmetic over a boolean.
    let math = utxo(
        vec![param("flag", Type::Boolean)],
        vec![Statement::ExprStatement(Expression::MathExpression {
            lhs: Box::new(Expression::Variable("flag".to_string())),
            operator: BinaryMathOp::Add,
            rhs: Box::new(Expression::NumberLiteral(1)),
        })],
    );
    assert_eq!(compile(&math, "bitcoin").err(), Some(CompileError::TypeMismatch));
    // Verifying a non-boolean expression.
    let verify_num = utxo(
        vec![],
        vec![Statement::VerifyStatement(Expression::NumberLiteral(7))],
    );
    assert_eq!(compile(&verify_num, "bitcoin").err(), Some(CompileError::TypeMismatch));
}

#[test]
fn test_unreachable_variable() {
    let mut params = vec![param("deep", Type::Number)];
    for i in 0..1001 {
        params.push(param(&format!("filler_{}", i), Type::Number));
    }
    let program = utxo(
        params,
        vec![Statement::ExprStatement(Expression::Variable("deep".to_string()))],
    );
    assert_eq!(compile(&program, "bitcoin").err(), Some(CompileError::UnreachableVariable));
}

#[test]
fn test_resolver_depth_addressing() {
    let mut stack = SimulatedStack {
        slots: vec![
            Slot { name: Some("bottom".to_string()), ty: Type::Number },
            Slot { name: Some("top".to_string()), ty: Type::String },
        ],
    };
    let code = stack_resolver(&"bottom".to_string(), &mut stack).unwrap();
    assert_eq!(code, vec![Instruction::PushNum(1), Instruction::Op(OP_PICK)]);
    assert_eq!(stack.slots.len(), 3);
    // The copy the first resolution pushed sits on top, so the slot named
    // `top` now lies one below it.
    let again = stack_resolver(&"top".to_string(), &mut stack).unwrap();
    assert_eq!(again, vec![Instruction::PushNum(1), Instruction::Op(OP_PICK)]);
}

#[test]
fn test_resolver_duplicates_top() {
    let mut stack = SimulatedStack {
        slots: vec![Slot { name: Some("only".to_string()), ty: Type::Signature }],
    };
    let code = stack_resolver(&"only".to_string(), &mut stack).unwrap();
    assert_eq!(code, vec![Instruction::Op(OP_DUP)]);
}

#[test]
fn test_let_binding_and_shadowing() {
    // A let-bound value is addressable; an inner block's rebinding shadows it
    // and ends with the block.
    let program = utxo(
        vec![param("x", Type::Number)],
        vec![
            Statement::VarDeclarationStatement {
                identifier: "y".to_string(),
                expr: Expression::NumberLiteral(2),
            },
            Statement::BlockStatement(vec![Statement::VarDeclarationStatement {
                identifier: "y".to_string(),
                expr: Expression::NumberLiteral(3),
            }]),
            Statement::ExprStatement(Expression::Variable("y".to_string())),
        ],
    );
    assert!(compile(&program, "bitcoin").is_ok());
}

#[test]
fn test_math_expression_exact_bytes() {
    let program = utxo(
        vec![param("a", Type::Number), param("b", Type::Number)],
        vec![Statement::ExprStatement(Expression::MathExpression {
            lhs: Box::new(Expression::Variable("a".to_string())),
            operator: BinaryMathOp::Add,
            rhs: Box::new(Expression::Variable("b".to_string())),
        })],
    );
    let output = compile(&program, "bitcoin").unwrap();
    // Each operand is one depth-addressed copy; the dedicated single-byte
    // opcode pushes the depth.
    assert_eq!(output.bytes(), &vec![0x51, OP_PICK, 0x51, OP_PICK, OP_ADD]);
}

#[test]
fn test_string_literal_exact_bytes() {
    let program = utxo(
        vec![],
        vec![Statement::ExprStatement(Expression::StringLiteral("ab".to_string()))],
    );
    let output = compile(&program, "bitcoin").unwrap();
    assert_eq!(output.bytes(), &vec![0x02, 0x61, 0x62]);
    assert_eq!(output.hex(), "026162");
}

#[test]
fn test_oversized_string_literal() {
    let long = "x".repeat(521);
    let program = utxo(vec![], vec![Statement::ExprStatement(Expression::StringLiteral(long))]);
    assert_eq!(compile(&program, "bitcoin").err(), Some(CompileError::NumericOverflow));
}

#[test]
fn test_negated_condition_appends_not() {
    let program = utxo(
        vec![param("a", Type::Number), param("b", Type::Number)],
        vec![Statement::IfStatement {
            condition_expr: ConditionExpression {
                negate: true,
                compare_expr: CompareExpression {
                    lhs: "a".to_string(),
                    operator: BinaryCompareOp::Greater,
                    rhs: "b".to_string(),
                },
            },
            if_block: vec![],
            else_block: None,
        }],
    );
    let output = compile(&program, "bitcoin").unwrap();
    let text = output.assembly();
    assert!(text.contains("OP_GREATERTHAN OP_NOT OP_IF"));
}

#[test]
fn test_emitters_append() {
    let mut script: Vec<Instruction> = Vec::new();
    push_int(&mut script, 0).unwrap();
    push_compare(&mut script, OP_EQUAL);
    push_bytes(&mut script, vec![1, 2, 3]).unwrap();
    assert_eq!(
        script,
        vec![
            Instruction::PushNum(0),
            Instruction::Op(OP_EQUAL),
            Instruction::PushData(vec![1, 2, 3]),
        ]
    );
    assert_eq!(push_int(&mut script, 2147483648), Err(CompileError::NumericOverflow));
    assert_eq!(
        push_bytes(&mut script, vec![0; 521]),
        Err(CompileError::NumericOverflow)
    );
}

#[test]
fn test_terminal_math() {
    assert_eq!(Math::abs(-5), 5);
    assert_eq!(Math::abs(5), 5);
    assert_eq!(Math::max(3, 9), 9);
    assert_eq!(Math::min(3, 9), 3);
}

#[test]
fn test_terminal_crypto_placeholders() {
    assert!(Crypto::verify("anyone".to_string()));
    assert_eq!(Crypto::sha256("data".to_string()), "dummy".to_string());
}

#[test]
fn test_contract_lock_rejects_at_definition_time() {
    // The placeholder chain context reports height one, below the absolute
    // timelock, so the reference routine refuses the spend.
    let witness = vec!["abc".to_string()];
    let numbers = vec![4, 0, 32];
    assert!(!Contract::lock(witness, numbers));
    // Negative witness numbers are admitted; the truncating quotient of a
    // negative product never reaches the expected value.
    assert!(!Contract::lock(vec!["abc".to_string()], vec![-50, 0, 7]));
}
