//! The simplified intermediate representation the self-hosted compiler
//! hands to the IR VM: no source positions, contracts or type annotations.
use vstd::prelude::*;
use crate::value::Value;

verus! {

/// An IR expression. A float literal is held as its IEEE-754 bits.
#[derive(Debug)]
pub enum IRNode {
    Int(i64),
    Float(u64),
    Str(String),
    Bool(bool),
    Nil,
    Load(String),
    If(Box<IRNode>, Box<IRNode>, Box<IRNode>),
    Do(Vec<IRNode>),
    Let(Vec<IRBinding>, Box<IRNode>),
    /// name, params, body
    Func(String, Vec<String>, Box<IRNode>),
    /// params, body
    Lambda(Vec<String>, Box<IRNode>),
    /// A call of a named function.
    Call(String, Vec<IRNode>),
    /// A call of a computed callee.
    CallExpr(Box<IRNode>, Vec<IRNode>),
    List(Vec<IRNode>),
    /// tag, args
    Variant(String, Vec<IRNode>),
    Match(Box<IRNode>, Vec<IRArm>),
    Try(Box<IRNode>),
}

#[derive(Debug)]
pub struct IRBinding {
    pub name: String,
    pub expr: IRNode,
}

#[derive(Debug)]
pub struct IRArm {
    pub pattern: IRPattern,
    pub body: IRNode,
}

#[derive(Debug)]
pub enum IRPattern {
    Wild,
    Bind(String),
    Lit(Value),
    Variant(String, Vec<IRPattern>),
}

/// A compiled function stored in the VM's function table.
#[derive(Debug)]
pub struct IRFunc {
    pub name: String,
    pub params: Vec<String>,
    pub body: IRNode,
}

/// A closure value: lambda and captured environment.
#[derive(Debug)]
pub struct IRClosureValue {
    pub params: Vec<String>,
    pub body: Box<IRNode>,
    pub captured_env: Vec<(String, Value)>,
}

} // verus!
