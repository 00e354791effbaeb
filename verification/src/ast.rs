//! The abstract syntax tree of a program: an ordered list of typed
//! witness-stack parameters and the statement tree of the output script. The
//! tree is immutable input to compilation.

use vstd::prelude::*;

verus! {

/// A whole program: the declared witness stack and the statements of the
/// output script.
#[derive(Debug, PartialEq)]
pub struct UTXO {
    /// The witness-stack parameters, in the order the spender supplies them.
    /// The first declared parameter lies at the bottom of the runtime stack.
    pub input_stack: Vec<StackParam>,
    /// The statements of the output script, compiled in order.
    pub output_script: Vec<Statement>,
}

/// One declared entry of the witness stack: an identifier bound to a
/// semantic type. Declared once, at program definition; immutable afterward.
#[derive(Clone, Debug, PartialEq)]
pub struct StackParam {
    pub identifier: String,
    pub ty: Type,
}

/// The semantic type of a witness parameter or bound value.
#[derive(Clone, Copy, Debug, PartialEq, Eq, Structural)]
pub enum Type {
    Signature,
    Number,
    String,
    Boolean,
}

/// One statement of the output script. Statements form a tree: conditional
/// arms and nested blocks hold statement sequences of their own.
#[derive(Debug, PartialEq)]
pub enum Statement {
    /// Binds an identifier to the value of an expression for the remainder of
    /// the enclosing block. Rebinding a name shadows it, innermost first.
    VarDeclarationStatement { identifier: String, expr: Expression },
    /// Evaluates an expression. The value is discarded unless this is the
    /// final statement of its block, whose value it then becomes.
    ExprStatement(Expression),
    /// A structured conditional over a comparison of two bound identifiers.
    /// Both arms must leave the stack with the same net shape.
    IfStatement {
        condition_expr: ConditionExpression,
        if_block: Vec<Statement>,
        else_block: Option<Vec<Statement>>,
    },
    /// A nested block: a new identifier scope over a statement sequence.
    BlockStatement(Vec<Statement>),
    /// Asserts that the transaction is invalid before the given absolute
    /// block height.
    AfterStatement(u32),
    /// Asserts that the spent output has at least the given number of
    /// confirmations.
    OlderStatement(u32),
    /// Evaluates a boolean expression and aborts the whole program unless it
    /// holds.
    VerifyStatement(Expression),
}

/// A pure expression, evaluated left to right on the target machine.
#[derive(Debug, PartialEq)]
pub enum Expression {
    /// A reference to a declared parameter or an in-scope binding.
    Variable(String),
    /// An integer literal; must fit the target's signed numeric range.
    NumberLiteral(i64),
    /// A boolean literal.
    BoolLiteral(bool),
    /// A byte-string literal.
    StringLiteral(String),
    /// Binary arithmetic over two sub-expressions, applied post-order.
    MathExpression { lhs: Box<Expression>, operator: BinaryMathOp, rhs: Box<Expression> },
    /// A cryptographic signature check over a declared `Signature` value,
    /// yielding a boolean verdict.
    CryptoVerify(String),
}

/// The boolean test driving a conditional: a comparison, optionally negated
/// after it is evaluated.
#[derive(Clone, Debug, PartialEq)]
pub struct ConditionExpression {
    pub negate: bool,
    pub compare_expr: CompareExpression,
}

/// A comparison of two bound identifiers.
#[derive(Clone, Debug, PartialEq)]
pub struct CompareExpression {
    pub lhs: String,
    pub operator: BinaryCompareOp,
    pub rhs: String,
}

/// The comparison operators of the source language.
#[derive(Clone, Copy, Debug, PartialEq, Eq, Structural)]
pub enum BinaryCompareOp {
    Equal,
    NotEqual,
    Greater,
    GreaterOrEqual,
    Less,
    LessOrEqual,
}

/// The arithmetic operators of the source language.
#[derive(Clone, Copy, Debug, PartialEq, Eq, Structural)]
pub enum BinaryMathOp {
    Add,
    Sub,
}

} // verus!
