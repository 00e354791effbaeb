//! The example contracts: one abstract syntax tree per spending pattern,
//! compiled and checked for the opcodes each pattern must contain.

use bithoven::ast::{
    BinaryCompareOp, CompareExpression, ConditionExpression, Expression, StackParam, Statement,
    Type, UTXO,
};
use bithoven::compile::{compile, CompiledProgram};
use bithoven::error::CompileError;

fn param(name: &str, ty: Type) -> StackParam {
    StackParam { identifier: name.to_string(), ty }
}

fn cond(lhs: &str, op: BinaryCompareOp, rhs: &str) -> ConditionExpression {
    ConditionExpression {
        negate: false,
        compare_expr: CompareExpression {
            lhs: lhs.to_string(),
            operator: op,
            rhs: rhs.to_string(),
        },
    }
}

fn verify_sig(name: &str) -> Statement {
    Statement::VerifyStatement(Expression::CryptoVerify(name.to_string()))
}

fn example_utxo(name: &str) -> UTXO {
    match name {
        "atomic_swap.bithoven" => UTXO {
            input_stack: vec![
                param("secret", Type::String),
                param("hashlock", Type::String),
                param("sig_claim", Type::Signature),
                param("sig_refund", Type::Signature),
            ],
            output_script: vec![Statement::IfStatement {
                condition_expr: cond("secret", BinaryCompareOp::Equal, "hashlock"),
                if_block: vec![verify_sig("sig_claim")],
                else_block: Some(vec![Statement::OlderStatement(144), verify_sig("sig_refund")]),
            }],
        },
        "escrow.bithoven" => UTXO {
            input_stack: vec![
                param("vote_a", Type::Number),
                param("vote_b", Type::Number),
                param("sig_buyer", Type::Signature),
                param("sig_seller", Type::Signature),
                param("sig_arbiter", Type::Signature),
            ],
            output_script: vec![Statement::IfStatement {
                condition_expr: cond("vote_a", BinaryCompareOp::Equal, "vote_b"),
                if_block: vec![verify_sig("sig_buyer"), verify_sig("sig_seller")],
                else_block: Some(vec![Statement::OlderStatement(1008), verify_sig("sig_arbiter")]),
            }],
        },
        "vault.bithoven" => UTXO {
            input_stack: vec![
                param("withdraw_flag", Type::Boolean),
                param("flag_expected", Type::Boolean),
                param("sig_owner", Type::Signature),
                param("sig_recovery", Type::Signature),
            ],
            output_script: vec![Statement::IfStatement {
                condition_expr: cond("withdraw_flag", BinaryCompareOp::Equal, "flag_expected"),
                if_block: vec![Statement::OlderStatement(4320), verify_sig("sig_owner")],
                else_block: Some(vec![verify_sig("sig_recovery")]),
            }],
        },
        "payment_channel.bithoven" => UTXO {
            input_stack: vec![
                param("round_a", Type::Number),
                param("round_b", Type::Number),
                param("sig_a", Type::Signature),
                param("sig_b", Type::Signature),
            ],
            output_script: vec![Statement::IfStatement {
                condition_expr: cond("round_a", BinaryCompareOp::GreaterOrEqual, "round_b"),
                if_block: vec![verify_sig("sig_a"), verify_sig("sig_b")],
                else_block: Some(vec![Statement::OlderStatement(432), verify_sig("sig_a")]),
            }],
        },
        "crowdfund.bithoven" => UTXO {
            input_stack: vec![
                param("raised", Type::Number),
                param("goal", Type::Number),
                param("sig_founder", Type::Signature),
                param("sig_backer", Type::Signature),
            ],
            output_script: vec![Statement::IfStatement {
                condition_expr: cond("raised", BinaryCompareOp::GreaterOrEqual, "goal"),
                if_block: vec![verify_sig("sig_founder")],
                else_block: Some(vec![Statement::OlderStatement(2016), verify_sig("sig_backer")]),
            }],
        },
        "prediction_market.bithoven" => UTXO {
            input_stack: vec![
                param("outcome", Type::Number),
                param("oracle_answer", Type::Number),
                param("sig_yes", Type::Signature),
                param("sig_no", Type::Signature),
                param("sig_oracle", Type::Signature),
            ],
            output_script: vec![
                verify_sig("sig_oracle"),
                Statement::IfStatement {
                    condition_expr: cond("outcome", BinaryCompareOp::Equal, "oracle_answer"),
                    if_block: vec![verify_sig("sig_yes")],
                    else_block: Some(vec![Statement::OlderStatement(288), verify_sig("sig_no")]),
                },
            ],
        },
        "nft_auction.bithoven" => UTXO {
            input_stack: vec![
                param("bid", Type::Number),
                param("reserve", Type::Number),
                param("sig_winner", Type::Signature),
                param("sig_seller", Type::Signature),
                param("sig_refund", Type::Signature),
            ],
            output_script: vec![Statement::IfStatement {
                condition_expr: cond("bid", BinaryCompareOp::GreaterOrEqual, "reserve"),
                if_block: vec![verify_sig("sig_winner"), verify_sig("sig_seller")],
                else_block: Some(vec![Statement::OlderStatement(720), verify_sig("sig_refund")]),
            }],
        },
        "bug_bounty.bithoven" => UTXO {
            input_stack: vec![
                param("severity", Type::Number),
                param("threshold", Type::Number),
                param("sig_researcher", Type::Signature),
                param("sig_team", Type::Signature),
            ],
            output_script: vec![
                Statement::AfterStatement(800000),
                Statement::IfStatement {
                    condition_expr: cond("severity", BinaryCompareOp::GreaterOrEqual, "threshold"),
                    if_block: vec![verify_sig("sig_researcher")],
                    else_block: Some(vec![
                        Statement::OlderStatement(1440),
                        verify_sig("sig_team"),
                    ]),
                },
            ],
        },
        other => panic!("unknown example: {}", other),
    }
}

fn compile_example(name: &str) -> Result<CompiledProgram, CompileError> {
    compile(&example_utxo(name), "bitcoin")
}

fn assert_compiles(name: &str) {
    let result = compile_example(name);
    assert!(result.is_ok(), "failed to compile {}: {:?}", name, result.err());
    let output = result.unwrap();
    assert!(!output.assembly().is_empty(), "assembly output is empty for {}", name);
    assert!(!output.hex().is_empty(), "hex output is empty for {}", name);
    assert!(!output.bytes().is_empty(), "byte output is empty for {}", name);
}

#[test]
fn test_atomic_swap_compiles() {
    assert_compiles("atomic_swap.bithoven");
}

#[test]
fn test_atomic_swap_output() {
    let output = compile_example("atomic_swap.bithoven").unwrap();
    let text = output.assembly();
    assert!(text.contains("OP_IF"), "Should have conditional logic");
    assert!(
        text.contains("OP_CHECKSEQUENCEVERIFY") || text.contains("OP_CSV"),
        "Should have relative timelock"
    );
    assert!(text.contains("OP_CHECKSIG"), "Should have signature verification");
    println!("Atomic Swap ASM: {}", text);
}

#[test]
fn test_escrow_compiles() {
    assert_compiles("escrow.bithoven");
}

#[test]
fn test_escrow_output() {
    let output = compile_example("escrow.bithoven").unwrap();
    let text = output.assembly();
    assert!(text.contains("OP_IF") || text.contains("OP_NOTIF"), "Should have conditional paths");
    assert!(text.contains("OP_CHECKSIG"), "Should verify signatures");
    assert!(
        text.contains("OP_CHECKSEQUENCEVERIFY") || text.contains("OP_CSV"),
        "Should have timelock for refund"
    );
    println!("Escrow ASM: {}", text);
}

#[test]
fn test_vault_compiles() {
    assert_compiles("vault.bithoven");
}

#[test]
fn test_vault_output() {
    let output = compile_example("vault.bithoven").unwrap();
    let text = output.assembly();
    assert!(text.contains("OP_IF"), "Should have withdrawal flag logic");
    assert!(
        text.contains("OP_CHECKSEQUENCEVERIFY") || text.contains("OP_CSV"),
        "Should have time delay"
    );
    assert!(text.contains("OP_CHECKSIG"), "Should verify signatures");
    println!("Vault ASM: {}", text);
}

#[test]
fn test_payment_channel_compiles() {
    assert_compiles("payment_channel.bithoven");
}

#[test]
fn test_payment_channel_output() {
    let output = compile_example("payment_channel.bithoven").unwrap();
    let text = output.assembly();
    assert!(
        text.contains("OP_IF") || text.contains("OP_NOTIF"),
        "Should have cooperative/unilateral paths"
    );
    assert!(text.contains("OP_CHECKSIG"), "Should verify signatures");
    assert!(
        text.contains("OP_CHECKSEQUENCEVERIFY") || text.contains("OP_CSV"),
        "Should have dispute period"
    );
    println!("Payment Channel ASM: {}", text);
}

#[test]
fn test_crowdfund_compiles() {
    assert_compiles("crowdfund.bithoven");
}

#[test]
fn test_crowdfund_output() {
    let output = compile_example("crowdfund.bithoven").unwrap();
    let text = output.assembly();
    assert!(
        text.contains("OP_IF") || text.contains("OP_NOTIF"),
        "Should have success/refund paths"
    );
    assert!(
        text.contains("OP_CHECKSEQUENCEVERIFY") || text.contains("OP_CSV"),
        "Should have timelock"
    );
    assert!(text.contains("OP_CHECKSIG"), "Should verify signatures");
    println!("Crowdfund ASM: {}", text);
}

#[test]
fn test_prediction_market_compiles() {
    assert_compiles("prediction_market.bithoven");
}

#[test]
fn test_prediction_market_output() {
    let output = compile_example("prediction_market.bithoven").unwrap();
    let text = output.assembly();
    assert!(text.contains("OP_IF") || text.contains("OP_NOTIF"), "Should have outcome paths");
    assert!(text.contains("OP_CHECKSIG"), "Should verify signatures");
    assert!(
        text.contains("OP_CHECKSEQUENCEVERIFY") || text.contains("OP_CSV"),
        "Should have betting period"
    );
    println!("Prediction Market ASM: {}", text);
}

#[test]
fn test_nft_auction_compiles() {
    assert_compiles("nft_auction.bithoven");
}

#[test]
fn test_nft_auction_output() {
    let output = compile_example("nft_auction.bithoven").unwrap();
    let text = output.assembly();
    assert!(
        text.contains("OP_IF") || text.contains("OP_NOTIF"),
        "Should have cooperative/refund paths"
    );
    assert!(
        text.contains("OP_CHECKSEQUENCEVERIFY") || text.contains("OP_CSV"),
        "Should have timeout period"
    );
    assert!(text.contains("OP_CHECKSIG"), "Should verify signatures");
    println!("NFT Auction ASM: {}", text);
}

#[test]
fn test_bug_bounty_compiles() {
    assert_compiles("bug_bounty.bithoven");
}

#[test]
fn test_bug_bounty_output() {
    let output = compile_example("bug_bounty.bithoven").unwrap();
    let text = output.assembly();
    assert!(
        text.contains("OP_IF") || text.contains("OP_NOTIF"),
        "Should have researcher/team paths"
    );
    assert!(text.contains("OP_CHECKSIG"), "Should verify signatures");
    assert!(
        text.contains("OP_CHECKSEQUENCEVERIFY") || text.contains("OP_CSV"),
        "Should have disclosure period"
    );
    println!("Bug Bounty ASM: {}", text);
}

#[test]
fn test_all_seven_examples_compile() {
    let examples = vec![
        "atomic_swap.bithoven",
        "escrow.bithoven",
        "vault.bithoven",
        "payment_channel.bithoven",
        "crowdfund.bithoven",
        "prediction_market.bithoven",
        "nft_auction.bithoven",
        "bug_bounty.bithoven",
    ];
    let mut failed = Vec::new();
    for example in &examples {
        if compile_example(example).is_err() {
            failed.push(*example);
        }
    }
    assert!(failed.is_empty(), "The following examples failed to compile: {:?}", failed);
    println!("All 8 examples compiled successfully!");
}

#[test]
fn test_examples_produce_unique_bytecode() {
    let examples = vec![
        "atomic_swap.bithoven",
        "escrow.bithoven",
        "vault.bithoven",
        "payment_channel.bithoven",
        "crowdfund.bithoven",
        "prediction_market.bithoven",
        "nft_auction.bithoven",
        "bug_bounty.bithoven",
    ];
    let mut bytecodes = Vec::new();
    for example in &examples {
        let output = compile_example(example).unwrap();
        bytecodes.push(output.hex().clone());
    }
    for i in 0..bytecodes.len() {
        for j in (i + 1)..bytecodes.len() {
            assert_ne!(
                bytecodes[i], bytecodes[j],
                "Examples {} and {} produced identical bytecode",
                examples[i], examples[j]
            );
        }
    }
    println!("All 8 examples produce unique bytecode!");
}

#[test]
fn test_examples_have_reasonable_sizes() {
    let examples = vec![
        "atomic_swap.bithoven",
        "escrow.bithoven",
        "vault.bithoven",
        "payment_channel.bithoven",
        "crowdfund.bithoven",
        "prediction_market.bithoven",
        "nft_auction.bithoven",
        "bug_bounty.bithoven",
    ];
    for example in &examples {
        let output = compile_example(example).unwrap();
        let bytes = output.bytes();
        assert!(!bytes.is_empty(), "{} produced empty script", example);
        assert!(
            bytes.len() < 10000,
            "{} produced unusually large script: {} bytes",
            example,
            bytes.len()
        );
        println!("{}: {} bytes", example, bytes.len());
    }
    println!("All 8 examples have reasonable script sizes!");
}
