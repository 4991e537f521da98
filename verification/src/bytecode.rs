//! Register bytecode: opcodes, instructions, functions, and reading them back
//! from the value form the self-hosted compiler emits.
//!
//! A function arrives as
//! `(BCFunc "name" arity reg_count capture_count [constants...] [(op dst a b) ...])`,
//! that is `Variant("BCFunc", Tuple|List([Str, Int, Int, Int, List, List]))`,
//! each instruction a four-element list of integers.
use vstd::prelude::*;
use crate::value::{Value, BytecodeClosureValue, seq_same, clone_value};
use crate::text::str_eq;
use crate::error::RuntimeError;
use crate::text::{decimal, decimal_int, u64_to_string, i64_to_string};

verus! {

/// Opcodes, in the order of their numeric codes.
#[derive(Debug, Clone, Copy, PartialEq, Eq, Structural)]
pub enum Op {
    LoadConst,
    LoadNil,
    LoadTrue,
    LoadFalse,
    Move,
    Add,
    Sub,
    Mul,
    Div,
    Mod,
    Eq,
    Ne,
    Lt,
    Le,
    Gt,
    Ge,
    Not,
    Neg,
    Jump,
    JumpIfFalse,
    JumpIfTrue,
    Call,
    CallBuiltin,
    CallReg,
    TailCall,
    Return,
    MakeList,
    MakeVariant,
    MakeVariant0,
    MakeClosure,
    MatchTag,
    JumpIfNoMatch,
    MatchWild,
    TryUnwrap,
    AssertRequires,
    AssertEnsures,
    AssertInvariant,
    MarkMoved,
    CheckNotMoved,
    Release,
}

/// Number of opcodes; codes run from 0 below it.
pub const OP_COUNT: u16 = 40;

/// The numeric code of an opcode.
pub open spec fn op_code(op: Op) -> u16 {
    match op {
        Op::LoadConst => 0,
        Op::LoadNil => 1,
        Op::LoadTrue => 2,
        Op::LoadFalse => 3,
        Op::Move => 4,
        Op::Add => 5,
        Op::Sub => 6,
        Op::Mul => 7,
        Op::Div => 8,
        Op::Mod => 9,
        Op::Eq => 10,
        Op::Ne => 11,
        Op::Lt => 12,
        Op::Le => 13,
        Op::Gt => 14,
        Op::Ge => 15,
        Op::Not => 16,
        Op::Neg => 17,
        Op::Jump => 18,
        Op::JumpIfFalse => 19,
        Op::JumpIfTrue => 20,
        Op::Call => 21,
        Op::CallBuiltin => 22,
        Op::CallReg => 23,
        Op::TailCall => 24,
        Op::Return => 25,
        Op::MakeList => 26,
        Op::MakeVariant => 27,
        Op::MakeVariant0 => 28,
        Op::MakeClosure => 29,
        Op::MatchTag => 30,
        Op::JumpIfNoMatch => 31,
        Op::MatchWild => 32,
        Op::TryUnwrap => 33,
        Op::AssertRequires => 34,
        Op::AssertEnsures => 35,
        Op::AssertInvariant => 36,
        Op::MarkMoved => 37,
        Op::CheckNotMoved => 38,
        Op::Release => 39,
    }
}

impl Op {
    /// The opcode's numeric code.
    pub fn code(self) -> (n: u16)
        ensures
            n == op_code(self),
            n < OP_COUNT,
    {
        match self {
            Op::LoadConst => 0,
            Op::LoadNil => 1,
            Op::LoadTrue => 2,
            Op::LoadFalse => 3,
            Op::Move => 4,
            Op::Add => 5,
            Op::Sub => 6,
            Op::Mul => 7,
            Op::Div => 8,
            Op::Mod => 9,
            Op::Eq => 10,
            Op::Ne => 11,
            Op::Lt => 12,
            Op::Le => 13,
            Op::Gt => 14,
            Op::Ge => 15,
            Op::Not => 16,
            Op::Neg => 17,
            Op::Jump => 18,
            Op::JumpIfFalse => 19,
            Op::JumpIfTrue => 20,
            Op::Call => 21,
            Op::CallBuiltin => 22,
            Op::CallReg => 23,
            Op::TailCall => 24,
            Op::Return => 25,
            Op::MakeList => 26,
            Op::MakeVariant => 27,
            Op::MakeVariant0 => 28,
            Op::MakeClosure => 29,
            Op::MatchTag => 30,
            Op::JumpIfNoMatch => 31,
            Op::MatchWild => 32,
            Op::TryUnwrap => 33,
            Op::AssertRequires => 34,
            Op::AssertEnsures => 35,
            Op::AssertInvariant => 36,
            Op::MarkMoved => 37,
            Op::CheckNotMoved => 38,
            Op::Release => 39,
        }
    }
}

/// One instruction: opcode and three 16-bit operands. `b` may hold a signed
/// jump offset in two's complement.
#[derive(Debug, Clone, Copy, PartialEq, Eq, Structural)]
pub struct Instruction {
    pub op: Op,
    pub dst: u16,
    pub a: u16,
    pub b: u16,
}

impl Instruction {
    pub fn new(op: Op, dst: u16, a: u16, b: u16) -> (i: Instruction)
        ensures
            i == (Instruction { op, dst, a, b }),
    {
        Instruction { op, dst, a, b }
    }
}

/// A compiled function.
#[derive(Debug)]
pub struct BytecodeFunc {
    pub name: String,
    pub arity: u16,
    pub register_count: u16,
    pub capture_count: u16,
    pub instructions: Vec<Instruction>,
    pub constants: Vec<Value>,
}

/// The closure value type, shared with `value`.
pub type ClosureValue = BytecodeClosureValue;

// ── Reading bytecode from values ────────────────────────────────────

/// The message every marshalling error carries, around its detail.
pub open spec fn marshal_msg(detail: Seq<char>) -> Seq<char> {
    "bytecode marshal: "@ + detail
}

pub open spec fn is_marshal_error(e: RuntimeError, detail: Seq<char>) -> bool {
    e matches RuntimeError::TypeError(m) && m@ == marshal_msg(detail)
}

fn type_err(detail: String) -> (e: RuntimeError)
    ensures
        is_marshal_error(e, detail@),
{
    let mut m = String::from_str("bytecode marshal: ");
    m.append(detail.as_str());
    RuntimeError::TypeError(m)
}

/// The name of a value's variant, as error messages show it.
pub open spec fn kind_name(v: Value) -> Seq<char> {
    match v {
        Value::Int(_) => "Int"@,
        Value::Float(_) => "Float"@,
        Value::Bool(_) => "Bool"@,
        Value::Str(_) => "Str"@,
        Value::Nil => "Nil"@,
        Value::Unit => "Unit"@,
        Value::List(_) => "List"@,
        Value::IntList(_) => "IntList"@,
        Value::Tuple(_) => "Tuple"@,
        Value::Variant(_, _) => "Variant"@,
        Value::Dict(_) => "Map"@,
        Value::BuiltinFn(_) => "BuiltinFn"@,
        Value::IRFuncRef(_) => "IRFuncRef"@,
        Value::BytecodeClosure(_) => "BytecodeClosure"@,
        Value::Bytes(_) => "Bytes"@,
    }
}

pub(crate) fn kind_name_exec(v: &Value) -> (s: &'static str)
    ensures
        s@ == kind_name(*v),
{
    match v {
        Value::Int(_) => "Int",
        Value::Float(_) => "Float",
        Value::Bool(_) => "Bool",
        Value::Str(_) => "Str",
        Value::Nil => "Nil",
        Value::Unit => "Unit",
        Value::List(_) => "List",
        Value::IntList(_) => "IntList",
        Value::Tuple(_) => "Tuple",
        Value::Variant(_, _) => "Variant",
        Value::Dict(_) => "Map",
        Value::BuiltinFn(_) => "BuiltinFn",
        Value::IRFuncRef(_) => "IRFuncRef",
        Value::BytecodeClosure(_) => "BytecodeClosure",
        Value::Bytes(_) => "Bytes",
    }
}

/// A 16-bit field: an `Int` in `0..=65535`, else the error detail.
pub open spec fn spec_value_to_u16(v: Value, field: Seq<char>) -> Result<u16, Seq<char>> {
    match v {
        Value::Int(n) => if n < 0 || n > 65535 {
            Err(field + ": value "@ + decimal_int(n as int) + " out of u16 range"@)
        } else {
            Ok(n as u16)
        },
        _ => Err(field + ": expected Int, got "@ + kind_name(v)),
    }
}

fn value_to_u16(val: &Value, field: &str) -> (r: Result<u16, RuntimeError>)
    ensures
        match spec_value_to_u16(*val, field@) {
            Ok(n) => r == Ok::<u16, RuntimeError>(n),
            Err(d) => r matches Err(e) && is_marshal_error(e, d),
        },
{
    match val {
        Value::Int(n) => {
            if *n < 0 || *n > 65535 {
                let mut d = String::from_str(field);
                d.append(": value ");
                let t = i64_to_string(*n);
                d.append(t.as_str());
                d.append(" out of u16 range");
                Err(type_err(d))
            } else {
                Ok(*n as u16)
            }
        },
        _ => {
            let mut d = String::from_str(field);
            d.append(": expected Int, got ");
            d.append(kind_name_exec(val));
            Err(type_err(d))
        },
    }
}

/// The opcode with a given code.
pub open spec fn spec_int_to_op(n: u16) -> Result<Op, Seq<char>> {
    if n == 0 { Ok(Op::LoadConst) }
    else if n == 1 { Ok(Op::LoadNil) }
    else if n == 2 { Ok(Op::LoadTrue) }
    else if n == 3 { Ok(Op::LoadFalse) }
    else if n == 4 { Ok(Op::Move) }
    else if n == 5 { Ok(Op::Add) }
    else if n == 6 { Ok(Op::Sub) }
    else if n == 7 { Ok(Op::Mul) }
    else if n == 8 { Ok(Op::Div) }
    else if n == 9 { Ok(Op::Mod) }
    else if n == 10 { Ok(Op::Eq) }
    else if n == 11 { Ok(Op::Ne) }
    else if n == 12 { Ok(Op::Lt) }
    else if n == 13 { Ok(Op::Le) }
    else if n == 14 { Ok(Op::Gt) }
    else if n == 15 { Ok(Op::Ge) }
    else if n == 16 { Ok(Op::Not) }
    else if n == 17 { Ok(Op::Neg) }
    else if n == 18 { Ok(Op::Jump) }
    else if n == 19 { Ok(Op::JumpIfFalse) }
    else if n == 20 { Ok(Op::JumpIfTrue) }
    else if n == 21 { Ok(Op::Call) }
    else if n == 22 { Ok(Op::CallBuiltin) }
    else if n == 23 { Ok(Op::CallReg) }
    else if n == 24 { Ok(Op::TailCall) }
    else if n == 25 { Ok(Op::Return) }
    else if n == 26 { Ok(Op::MakeList) }
    else if n == 27 { Ok(Op::MakeVariant) }
    else if n == 28 { Ok(Op::MakeVariant0) }
    else if n == 29 { Ok(Op::MakeClosure) }
    else if n == 30 { Ok(Op::MatchTag) }
    else if n == 31 { Ok(Op::JumpIfNoMatch) }
    else if n == 32 { Ok(Op::MatchWild) }
    else if n == 33 { Ok(Op::TryUnwrap) }
    else if n == 34 { Ok(Op::AssertRequires) }
    else if n == 35 { Ok(Op::AssertEnsures) }
    else if n == 36 { Ok(Op::AssertInvariant) }
    else if n == 37 { Ok(Op::MarkMoved) }
    else if n == 38 { Ok(Op::CheckNotMoved) }
    else if n == 39 { Ok(Op::Release) }
    else { Err("unknown opcode: "@ + decimal(n as nat)) }
}

/// Maps a numeric code to its opcode; codes from `OP_COUNT` on are unknown.
pub fn int_to_op(n: u16) -> (r: Result<Op, RuntimeError>)
    ensures
        match spec_int_to_op(n) {
            Ok(op) => r == Ok::<Op, RuntimeError>(op),
            Err(d) => r matches Err(e) && is_marshal_error(e, d),
        },
{
    match n {
        0 => Ok(Op::LoadConst),
        1 => Ok(Op::LoadNil),
        2 => Ok(Op::LoadTrue),
        3 => Ok(Op::LoadFalse),
        4 => Ok(Op::Move),
        5 => Ok(Op::Add),
        6 => Ok(Op::Sub),
        7 => Ok(Op::Mul),
        8 => Ok(Op::Div),
        9 => Ok(Op::Mod),
        10 => Ok(Op::Eq),
        11 => Ok(Op::Ne),
        12 => Ok(Op::Lt),
        13 => Ok(Op::Le),
        14 => Ok(Op::Gt),
        15 => Ok(Op::Ge),
        16 => Ok(Op::Not),
        17 => Ok(Op::Neg),
        18 => Ok(Op::Jump),
        19 => Ok(Op::JumpIfFalse),
        20 => Ok(Op::JumpIfTrue),
        21 => Ok(Op::Call),
        22 => Ok(Op::CallBuiltin),
        23 => Ok(Op::CallReg),
        24 => Ok(Op::TailCall),
        25 => Ok(Op::Return),
        26 => Ok(Op::MakeList),
        27 => Ok(Op::MakeVariant),
        28 => Ok(Op::MakeVariant0),
        29 => Ok(Op::MakeClosure),
        30 => Ok(Op::MatchTag),
        31 => Ok(Op::JumpIfNoMatch),
        32 => Ok(Op::MatchWild),
        33 => Ok(Op::TryUnwrap),
        34 => Ok(Op::AssertRequires),
        35 => Ok(Op::AssertEnsures),
        36 => Ok(Op::AssertInvariant),
        37 => Ok(Op::MarkMoved),
        38 => Ok(Op::CheckNotMoved),
        39 => Ok(Op::Release),
        _ => {
            let mut d = String::from_str("unknown opcode: ");
            let t = u64_to_string(n as u64);
            d.append(t.as_str());
            Err(type_err(d))
        },
    }
}

/// Decoding a code gives back the opcode that has it, and every known code
/// decodes to an opcode with that code.
pub proof fn law_op_code_roundtrip(op: Op, n: u16)
    ensures
        spec_int_to_op(op_code(op)) == Ok::<Op, Seq<char>>(op),
        n < OP_COUNT ==> (spec_int_to_op(n) matches Ok(o) && op_code(o) == n),
        n >= OP_COUNT ==> spec_int_to_op(n) is Err,
{
}


/// Field `i` of an integer instruction list lies outside `0..=65535`.
pub open spec fn int_out_of_range(n: i64) -> bool {
    n < 0 || n > 65535
}

/// The first of the four leading fields that is out of range.
pub open spec fn first_bad_field(ints: Seq<i64>) -> Option<int> {
    if int_out_of_range(ints[0]) { Some(0) }
    else if int_out_of_range(ints[1]) { Some(1) }
    else if int_out_of_range(ints[2]) { Some(2) }
    else if int_out_of_range(ints[3]) { Some(3) }
    else { None }
}

pub open spec fn msg_short_instruction(len: nat) -> Seq<char> {
    "instruction: expected 4 elements, got "@ + decimal(len)
}

/// Decoding `[op dst a b]` from a general list: each field in turn, the
/// opcode checked right after its field.
pub open spec fn decode_list_instruction(items: Seq<Value>) -> Result<Instruction, Seq<char>> {
    match spec_value_to_u16(items[0], "instruction op"@) {
        Err(d) => Err(d),
        Ok(opn) => match spec_int_to_op(opn) {
            Err(d) => Err(d),
            Ok(op) => match spec_value_to_u16(items[1], "instruction dst"@) {
                Err(d) => Err(d),
                Ok(dst) => match spec_value_to_u16(items[2], "instruction a"@) {
                    Err(d) => Err(d),
                    Ok(a) => match spec_value_to_u16(items[3], "instruction b"@) {
                        Err(d) => Err(d),
                        Ok(b) => Ok(Instruction { op, dst, a, b }),
                    },
                },
            },
        },
    }
}

/// One instruction from its value form.
pub open spec fn spec_value_to_instruction(v: Value) -> Result<Instruction, Seq<char>> {
    match v {
        Value::List(items) => if items@.len() < 4 {
            Err(msg_short_instruction(items@.len()))
        } else {
            decode_list_instruction(items@)
        },
        Value::IntList(ints) => if ints@.len() < 4 {
            Err(msg_short_instruction(ints@.len()))
        } else {
            match first_bad_field(ints@) {
                Some(i) => Err("instruction field "@ + decimal(i as nat) + ": value "@ + decimal_int(ints@[i] as int)
                    + " out of u16 range"@),
                None => match spec_int_to_op(ints@[0] as u16) {
                    Err(d) => Err(d),
                    Ok(op) => Ok(Instruction { op, dst: ints@[1] as u16, a: ints@[2] as u16, b: ints@[3] as u16 }),
                },
            }
        },
        _ => Err("expected instruction as list [op dst a b]"@),
    }
}

fn short_instruction_err(len: usize) -> (e: RuntimeError)
    ensures
        is_marshal_error(e, msg_short_instruction(len as nat)),
{
    let mut d = String::from_str("instruction: expected 4 elements, got ");
    let t = u64_to_string(len as u64);
    d.append(t.as_str());
    type_err(d)
}

fn value_to_instruction(val: &Value) -> (r: Result<Instruction, RuntimeError>)
    ensures
        match spec_value_to_instruction(*val) {
            Ok(i) => r == Ok::<Instruction, RuntimeError>(i),
            Err(d) => r matches Err(e) && is_marshal_error(e, d),
        },
{
    match val {
        Value::List(items) => {
            if items.len() < 4 {
                return Err(short_instruction_err(items.len()));
            }
            let op_n = value_to_u16(&items[0], "instruction op")?;
            let op = int_to_op(op_n)?;
            let dst = value_to_u16(&items[1], "instruction dst")?;
            let a = value_to_u16(&items[2], "instruction a")?;
            let b = value_to_u16(&items[3], "instruction b")?;
            Ok(Instruction::new(op, dst, a, b))
        },
        Value::IntList(ints) => {
            if ints.len() < 4 {
                return Err(short_instruction_err(ints.len()));
            }
            let mut i: usize = 0;
            while i < 4
                invariant
                    i <= 4,
                    ints@.len() >= 4,
                    *val == Value::IntList(*ints),
                    forall|j: int| 0 <= j < i ==> !int_out_of_range(#[trigger] ints@[j]),
                decreases 4 - i,
            {
                let v = ints[i];
                if v < 0 || v > 65535 {
                    let mut d = String::from_str("instruction field ");
                    let ti = u64_to_string(i as u64);
                    d.append(ti.as_str());
                    d.append(": value ");
                    let tv = i64_to_string(v);
                    d.append(tv.as_str());
                    d.append(" out of u16 range");
                    proof {
                        assert(first_bad_field(ints@) == Some(i as int));
                        assert(d@ == "instruction field "@ + decimal(i as nat) + ": value "@ + decimal_int(ints@[i as int] as int)
                            + " out of u16 range"@);
                    }
                    return Err(type_err(d));
                }
                i += 1;
            }
            let op = int_to_op(ints[0] as u16)?;
            Ok(Instruction::new(op, ints[1] as u16, ints[2] as u16, ints[3] as u16))
        },
        _ => Err(type_err(String::from_str("expected instruction as list [op dst a b]"))),
    }
}

/// Decoding a list of instructions: the first failure wins.
pub open spec fn spec_decode_all(items: Seq<Value>) -> Result<Seq<Instruction>, Seq<char>>
    decreases items.len(),
{
    if items.len() == 0 {
        Ok(Seq::empty())
    } else {
        match spec_decode_all(items.drop_last()) {
            Err(d) => Err(d),
            Ok(p) => match spec_value_to_instruction(items.last()) {
                Err(d) => Err(d),
                Ok(i) => Ok(p.push(i)),
            },
        }
    }
}

fn decode_all(items: &Vec<Value>) -> (r: Result<Vec<Instruction>, RuntimeError>)
    ensures
        match spec_decode_all(items@) {
            Ok(s) => r matches Ok(v) && v@ == s,
            Err(d) => r matches Err(e) && is_marshal_error(e, d),
        },
{
    let mut out: Vec<Instruction> = Vec::new();
    let mut i: usize = 0;
    assert(items@.take(0) =~= Seq::<Value>::empty());
    while i < items.len()
        invariant
            i <= items@.len(),
            spec_decode_all(items@.take(i as int)) == Ok::<Seq<Instruction>, Seq<char>>(out@),
        decreases items@.len() - i,
    {
        assert(items@.take(i + 1).drop_last() =~= items@.take(i as int));
        assert(items@.take(i + 1).last() == items@[i as int]);
        match value_to_instruction(&items[i]) {
            Ok(ins) => {
                out.push(ins);
            },
            Err(e) => {
                proof {
                    lemma_decode_all_prefix_err(items@, i as int + 1);
                }
                return Err(e);
            },
        }
        i += 1;
    }
    assert(items@.take(items@.len() as int) =~= items@);
    Ok(out)
}

/// An error in a prefix is the error of the whole list.
pub proof fn lemma_decode_all_prefix_err(items: Seq<Value>, n: int)
    requires
        0 <= n <= items.len(),
        spec_decode_all(items.take(n)) is Err,
    ensures
        spec_decode_all(items) == spec_decode_all(items.take(n)),
    decreases items.len() - n,
{
    if n < items.len() {
        assert(items.take(n + 1).drop_last() =~= items.take(n));
        lemma_decode_all_prefix_err(items, n + 1);
    } else {
        assert(items.take(n) =~= items);
    }
}

/// What a well-formed `BCFunc` value holds.
pub struct FuncShape {
    pub name: Seq<char>,
    pub arity: u16,
    pub register_count: u16,
    pub capture_count: u16,
    pub constants: Seq<Value>,
    pub instructions: Seq<Instruction>,
}

/// The fields of a `BCFunc` payload: a tuple (constructor applied to
/// several arguments) or a list.
pub open spec fn bcfunc_items(inner: Value) -> Option<Seq<Value>> {
    match inner {
        Value::Tuple(items) => Some(items@),
        Value::List(items) => Some(items@),
        _ => None,
    }
}

/// Decoding the six fields in order.
pub open spec fn decode_fields(items: Seq<Value>) -> Result<FuncShape, Seq<char>> {
    match items[0] {
        Value::Str(name) => match spec_value_to_u16(items[1], "BCFunc arity"@) {
            Err(d) => Err(d),
            Ok(arity) => match spec_value_to_u16(items[2], "BCFunc reg_count"@) {
                Err(d) => Err(d),
                Ok(rc) => match spec_value_to_u16(items[3], "BCFunc capture_count"@) {
                    Err(d) => Err(d),
                    Ok(cc) => match items[4] {
                        Value::List(cs) => match items[5] {
                            Value::List(is) => match spec_decode_all(is@) {
                                Err(d) => Err(d),
                                Ok(instrs) => Ok(FuncShape {
                                    name: name@,
                                    arity,
                                    register_count: rc,
                                    capture_count: cc,
                                    constants: cs@,
                                    instructions: instrs,
                                }),
                            },
                            _ => Err("BCFunc instructions: expected List"@),
                        },
                        _ => Err("BCFunc constants: expected List"@),
                    },
                },
            },
        },
        _ => Err("BCFunc name: expected Str"@),
    }
}

/// A compiled function from its value form.
pub open spec fn spec_value_to_bytecode_func(v: Value) -> Result<FuncShape, Seq<char>> {
    match v {
        Value::Variant(tag, inner) => if tag@ == "BCFunc"@ {
            match bcfunc_items(*inner) {
                None => Err("BCFunc inner value must be a Tuple or List"@),
                Some(items) => if items.len() < 6 {
                    Err("BCFunc: expected 6 fields, got "@ + decimal(items.len()))
                } else {
                    decode_fields(items)
                },
            }
        } else {
            Err("expected BCFunc variant, got "@ + tag@)
        },
        _ => Err("expected Variant, got non-variant value"@),
    }
}

/// The function matches the shape, its constants copies of the listed ones.
pub open spec fn func_has_shape(f: BytecodeFunc, s: FuncShape) -> bool {
    &&& f.name@ == s.name
    &&& f.arity == s.arity
    &&& f.register_count == s.register_count
    &&& f.capture_count == s.capture_count
    &&& seq_same(s.constants, f.constants@)
    &&& f.instructions@ == s.instructions
}

fn clone_value_list(x: &Vec<Value>) -> (r: Vec<Value>)
    ensures
        seq_same(x@, r@),
{
    let mut out: Vec<Value> = Vec::new();
    let mut i: usize = 0;
    while i < x.len()
        invariant
            i <= x@.len(),
            seq_same(x@.take(i as int), out@),
        decreases x@.len() - i,
    {
        assert(x@.take(i + 1).drop_last() =~= x@.take(i as int));
        let v = clone_value(&x[i]);
        let ghost prev = out@;
        out.push(v);
        assert(out@.drop_last() =~= prev);
        i += 1;
    }
    assert(x@.take(x@.len() as int) =~= x@);
    out
}

fn decode_fields_exec(items: &Vec<Value>) -> (r: Result<BytecodeFunc, RuntimeError>)
    requires
        items@.len() >= 6,
    ensures
        match decode_fields(items@) {
            Ok(s) => r matches Ok(f) && func_has_shape(f, s),
            Err(d) => r matches Err(e) && is_marshal_error(e, d),
        },
{
    let name = match &items[0] {
        Value::Str(s) => s.clone(),
        _ => {
            return Err(type_err(String::from_str("BCFunc name: expected Str")));
        },
    };
    let arity = value_to_u16(&items[1], "BCFunc arity")?;
    let register_count = value_to_u16(&items[2], "BCFunc reg_count")?;
    let capture_count = value_to_u16(&items[3], "BCFunc capture_count")?;
    let constants = match &items[4] {
        Value::List(cs) => clone_value_list(cs),
        _ => {
            return Err(type_err(String::from_str("BCFunc constants: expected List")));
        },
    };
    let instructions = match &items[5] {
        Value::List(is) => decode_all(is)?,
        _ => {
            return Err(type_err(String::from_str("BCFunc instructions: expected List")));
        },
    };
    Ok(BytecodeFunc { name, arity, register_count, capture_count, instructions, constants })
}

/// Reads a compiled function from its `BCFunc` value form.
pub fn value_to_bytecode_func(val: &Value) -> (r: Result<BytecodeFunc, RuntimeError>)
    ensures
        match spec_value_to_bytecode_func(*val) {
            Ok(s) => r matches Ok(f) && func_has_shape(f, s),
            Err(d) => r matches Err(e) && is_marshal_error(e, d),
        },
{
    match val {
        Value::Variant(tag, inner) => {
            if str_eq(tag.as_str(), "BCFunc") {
                let items: &Vec<Value> = match &**inner {
                    Value::Tuple(items) => items,
                    Value::List(items) => items,
                    _ => {
                        return Err(type_err(String::from_str("BCFunc inner value must be a Tuple or List")));
                    },
                };
                if items.len() < 6 {
                    let mut d = String::from_str("BCFunc: expected 6 fields, got ");
                    let t = u64_to_string(items.len() as u64);
                    d.append(t.as_str());
                    return Err(type_err(d));
                }
                decode_fields_exec(items)
            } else {
                let mut d = String::from_str("expected BCFunc variant, got ");
                d.append(tag.as_str());
                Err(type_err(d))
            }
        },
        _ => Err(type_err(String::from_str("expected Variant, got non-variant value"))),
    }
}


// ── Several functions ───────────────────────────────────────────────

/// Reading every value in order: the first failure's message, or the shape
/// of each.
pub open spec fn decode_funcs(vs: Seq<Value>) -> Result<Seq<FuncShape>, Seq<char>>
    decreases vs.len(),
{
    if vs.len() == 0 {
        Ok(Seq::empty())
    } else {
        match decode_funcs(vs.drop_last()) {
            Err(d) => Err(d),
            Ok(p) => match spec_value_to_bytecode_func(vs.last()) {
                Err(d) => Err(d),
                Ok(f) => Ok(p.push(f)),
            },
        }
    }
}

/// The functions whose name no earlier one has: the first of each name wins.
pub open spec fn first_of_each_name(s: Seq<FuncShape>) -> Seq<FuncShape>
    decreases s.len(),
{
    if s.len() == 0 {
        Seq::empty()
    } else if exists|j: int| 0 <= j < s.len() - 1 && #[trigger] s[j].name == s.last().name {
        first_of_each_name(s.drop_last())
    } else {
        first_of_each_name(s.drop_last()).push(s.last())
    }
}

proof fn lemma_decode_funcs_prefix_err(vs: Seq<Value>, n: int)
    requires
        0 <= n <= vs.len(),
        decode_funcs(vs.take(n)) is Err,
    ensures
        decode_funcs(vs) == decode_funcs(vs.take(n)),
    decreases vs.len() - n,
{
    if n < vs.len() {
        assert(vs.take(n + 1).drop_last() =~= vs.take(n));
        lemma_decode_funcs_prefix_err(vs, n + 1);
    } else {
        assert(vs.take(n) =~= vs);
    }
}

/// Reads compiled functions from their value forms, in order, keeping the
/// first function of each name; the first value that is not a `BCFunc`
/// gives the error.
pub fn unmarshal_functions(funcs: &Vec<Value>) -> (r: Result<Vec<BytecodeFunc>, RuntimeError>)
    ensures
        match decode_funcs(funcs@) {
            Err(d) => r matches Err(e) && is_marshal_error(e, d),
            Ok(shapes) => r matches Ok(v) && v@.len() == first_of_each_name(shapes).len()
                && forall|k: int| 0 <= k < v@.len() ==> func_has_shape(#[trigger] v@[k], first_of_each_name(shapes)[k]),
        },
{
    let mut out: Vec<BytecodeFunc> = Vec::new();
    let mut names: Vec<String> = Vec::new();
    let ghost mut shapes: Seq<FuncShape> = Seq::empty();
    let mut i: usize = 0;
    assert(funcs@.take(0) =~= Seq::<Value>::empty());
    while i < funcs.len()
        invariant
            i <= funcs@.len(),
            decode_funcs(funcs@.take(i as int)) == Ok::<Seq<FuncShape>, Seq<char>>(shapes),
            shapes.len() == i,
            names@.len() == i,
            forall|j: int| 0 <= j < i ==> (#[trigger] names@[j])@ == shapes[j].name,
            out@.len() == first_of_each_name(shapes).len(),
            forall|k: int| 0 <= k < out@.len() ==> func_has_shape(#[trigger] out@[k], first_of_each_name(shapes)[k]),
        decreases funcs@.len() - i,
    {
        proof {
            assert(funcs@.take(i + 1).drop_last() =~= funcs@.take(i as int));
            assert(funcs@.take(i + 1).last() == funcs@[i as int]);
        }
        let f = match value_to_bytecode_func(&funcs[i]) {
            Err(e) => {
                proof {
                    lemma_decode_funcs_prefix_err(funcs@, i + 1);
                }
                return Err(e);
            },
            Ok(f) => f,
        };
        let ghost s = spec_value_to_bytecode_func(funcs@[i as int])->Ok_0;
        let ghost next = shapes.push(s);
        let mut dup = false;
        let mut j: usize = 0;
        while j < names.len()
            invariant
                j <= names@.len(),
                names@.len() == i,
                next.len() == i + 1,
                next.last() == s,
                f.name@ == s.name,
                forall|m: int| 0 <= m < i ==> (#[trigger] names@[m])@ == next[m].name,
                dup == exists|m: int| 0 <= m < j && #[trigger] next[m].name == s.name,
            decreases names@.len() - j,
        {
            if str_eq(names[j].as_str(), f.name.as_str()) {
                dup = true;
            }
            proof {
                if !dup {
                    assert forall|m: int| 0 <= m < j + 1 implies #[trigger] next[m].name != s.name by {
                        if m == j {
                            assert(names@[m]@ == next[m].name);
                        }
                    }
                }
            }
            j += 1;
        }
        proof {
            assert(next.drop_last() =~= shapes);
        }
        let nm = f.name.clone();
        names.push(nm);
        if !dup {
            out.push(f);
        }
        proof {
            shapes = next;
        }
        i += 1;
    }
    proof {
        assert(funcs@.take(i as int) =~= funcs@);
    }
    Ok(out)
}

/// Why a list of batches is refused.
pub enum BatchError {
    /// The batch at this position is not a list.
    Shape(nat),
    /// A function value does not decode, with the message.
    Marshal(Seq<char>),
}

/// The batches read in order: each non-empty batch's functions, the first
/// of each name kept; an empty batch is passed over.
pub open spec fn read_batches(bs: Seq<Value>) -> Result<Seq<Seq<FuncShape>>, BatchError>
    decreases bs.len(),
{
    if bs.len() == 0 {
        Ok(Seq::empty())
    } else {
        match read_batches(bs.drop_last()) {
            Err(e) => Err(e),
            Ok(p) => match bs.last() {
                Value::List(items) => if items@.len() == 0 {
                    Ok(p)
                } else {
                    match decode_funcs(items@) {
                        Err(d) => Err(BatchError::Marshal(d)),
                        Ok(sh) => Ok(p.push(first_of_each_name(sh))),
                    }
                },
                _ => Err(BatchError::Shape((bs.len() - 1) as nat)),
            },
        }
    }
}

pub open spec fn no_batches_msg() -> Seq<char> {
    "compile-bytecode-streaming: empty batch list"@
}

pub open spec fn batch_shape_msg(i: nat) -> Seq<char> {
    "compile-bytecode-streaming: batch "@ + decimal(i) + " must be a list of BCFunc"@
}

proof fn lemma_read_batches_prefix_err(bs: Seq<Value>, n: int)
    requires
        0 <= n <= bs.len(),
        read_batches(bs.take(n)) is Err,
    ensures
        read_batches(bs) == read_batches(bs.take(n)),
    decreases bs.len() - n,
{
    if n < bs.len() {
        assert(bs.take(n + 1).drop_last() =~= bs.take(n));
        lemma_read_batches_prefix_err(bs, n + 1);
    } else {
        assert(bs.take(n) =~= bs);
    }
}

/// Reads the batches of functions to compile one object each: a non-empty
/// list of lists of `BCFunc` values. Each non-empty batch gives its
/// functions, the first of each name kept; an empty one is passed over.
pub fn read_streaming_batches(batches: &Vec<Value>) -> (r: Result<Vec<Vec<BytecodeFunc>>, RuntimeError>)
    ensures
        batches@.len() == 0 ==> (r matches Err(RuntimeError::Custom(m)) && m@ == no_batches_msg()),
        batches@.len() > 0 ==> match read_batches(batches@) {
            Err(BatchError::Shape(i)) => r matches Err(RuntimeError::Custom(m)) && m@ == batch_shape_msg(i),
            Err(BatchError::Marshal(d)) => r matches Err(e) && is_marshal_error(e, d),
            Ok(bs) => r matches Ok(v) && v@.len() == bs.len() && forall|k: int| 0 <= k < v@.len() ==> {
                &&& (#[trigger] v@[k])@.len() == bs[k].len()
                &&& forall|m: int| 0 <= m < v@[k]@.len() ==> func_has_shape(#[trigger] v@[k]@[m], bs[k][m])
            },
        },
{
    if batches.len() == 0 {
        return Err(RuntimeError::Custom(String::from_str("compile-bytecode-streaming: empty batch list")));
    }
    let mut out: Vec<Vec<BytecodeFunc>> = Vec::new();
    let ghost mut read: Seq<Seq<FuncShape>> = Seq::empty();
    let mut i: usize = 0;
    assert(batches@.take(0) =~= Seq::<Value>::empty());
    while i < batches.len()
        invariant
            i <= batches@.len(),
            read_batches(batches@.take(i as int)) == Ok::<Seq<Seq<FuncShape>>, BatchError>(read),
            out@.len() == read.len(),
            forall|k: int| 0 <= k < out@.len() ==> {
                &&& (#[trigger] out@[k])@.len() == read[k].len()
                &&& forall|m: int| 0 <= m < out@[k]@.len() ==> func_has_shape(#[trigger] out@[k]@[m], read[k][m])
            },
        decreases batches@.len() - i,
    {
        proof {
            assert(batches@.take(i + 1).drop_last() =~= batches@.take(i as int));
            assert(batches@.take(i + 1).last() == batches@[i as int]);
        }
        match &batches[i] {
            Value::List(items) => {
                if items.len() > 0 {
                    match unmarshal_functions(items) {
                        Err(e) => {
                            proof {
                                lemma_read_batches_prefix_err(batches@, i + 1);
                            }
                            return Err(e);
                        },
                        Ok(fs) => {
                            let ghost sh = first_of_each_name(decode_funcs(items@)->Ok_0);
                            let ghost prev = out@;
                            out.push(fs);
                            proof {
                                assert(out@[out@.len() - 1] == fs);
                                assert forall|k: int| 0 <= k < out@.len() implies {
                                    &&& (#[trigger] out@[k])@.len() == read.push(sh)[k].len()
                                    &&& forall|m: int| 0 <= m < out@[k]@.len() ==> func_has_shape(#[trigger] out@[k]@[m], read.push(sh)[k][m])
                                } by {
                                    if k < prev.len() {
                                        assert(out@[k] == prev[k]);
                                    }
                                }
                                read = read.push(sh);
                            }
                        },
                    }
                }
            },
            _ => {
                proof {
                    lemma_read_batches_prefix_err(batches@, i + 1);
                }
                let mut m = String::from_str("compile-bytecode-streaming: batch ");
                m.append(u64_to_string(i as u64).as_str());
                m.append(" must be a list of BCFunc");
                return Err(RuntimeError::Custom(m));
            },
        }
        i += 1;
    }
    proof {
        assert(batches@.take(i as int) =~= batches@);
    }
    Ok(out)
}

/// Builtins whose compiled callers need the full runtime library linked.
pub open spec fn runtime_builtin(s: Seq<char>) -> bool {
    ||| s == "compile-bytecode-to-executable"@
    ||| s == "compile-bytecode-to-executable-with-target"@
    ||| s == "compile-bytecode-streaming"@
    ||| s == "compile-to-executable"@
    ||| s == "run-bytecode"@
}

pub open spec fn names_runtime_builtin(c: Value) -> bool {
    c matches Value::Str(s) && runtime_builtin(s@)
}

/// A function with one of those builtins' names among its constants.
pub open spec fn needs_runtime(f: BytecodeFunc) -> bool {
    exists|c: int| 0 <= c < f.constants@.len() && names_runtime_builtin(#[trigger] f.constants@[c])
}

fn is_runtime_builtin(c: &Value) -> (b: bool)
    ensures
        b == names_runtime_builtin(*c),
{
    match c {
        Value::Str(s) => {
            let t = s.as_str();
            str_eq(t, "compile-bytecode-to-executable") || str_eq(t, "compile-bytecode-to-executable-with-target")
                || str_eq(t, "compile-bytecode-streaming") || str_eq(t, "compile-to-executable")
                || str_eq(t, "run-bytecode")
        },
        _ => false,
    }
}

/// Whether any of the functions names a builtin that needs the full runtime
/// library.
pub fn needs_full_runtime(funcs: &Vec<BytecodeFunc>) -> (b: bool)
    ensures
        b == exists|k: int| 0 <= k < funcs@.len() && needs_runtime(#[trigger] funcs@[k]),
{
    let mut k: usize = 0;
    while k < funcs.len()
        invariant
            k <= funcs@.len(),
            forall|j: int| 0 <= j < k ==> !needs_runtime(#[trigger] funcs@[j]),
        decreases funcs@.len() - k,
    {
        let cs = &funcs[k].constants;
        let mut c: usize = 0;
        while c < cs.len()
            invariant
                k < funcs@.len(),
                cs == &funcs@[k as int].constants,
                c <= cs@.len(),
                forall|j: int| 0 <= j < c ==> !names_runtime_builtin(#[trigger] cs@[j]),
            decreases cs@.len() - c,
        {
            if is_runtime_builtin(&cs[c]) {
                proof {
                    assert(names_runtime_builtin(funcs@[k as int].constants@[c as int]));
                    assert(needs_runtime(funcs@[k as int]));
                }
                return true;
            }
            c += 1;
        }
        assert(!needs_runtime(funcs@[k as int]));
        k += 1;
    }
    false
}

// ── Simple closures ─────────────────────────────────────────────────

/// Longest body evaluated inline.
pub const SIMPLE_CLOSURE_MAX_INSTRS: usize = 15;
/// Most parameters evaluated inline.
pub const SIMPLE_CLOSURE_MAX_PARAMS: usize = 8;

/// Opcodes an inline evaluation supports.
pub open spec fn is_simple_op(op: Op) -> bool {
    match op {
        Op::LoadConst | Op::LoadNil | Op::LoadTrue | Op::LoadFalse | Op::Move
        | Op::Add | Op::Sub | Op::Mul | Op::Div | Op::Mod | Op::Neg
        | Op::Eq | Op::Ne | Op::Lt | Op::Le | Op::Gt | Op::Ge | Op::Not
        | Op::Return | Op::CallBuiltin | Op::MakeList | Op::MarkMoved | Op::CheckNotMoved => true,
        _ => false,
    }
}

/// Small enough, few enough parameters, and only simple opcodes.
pub open spec fn spec_is_simple_closure(f: BytecodeFunc) -> bool {
    &&& f.instructions@.len() <= SIMPLE_CLOSURE_MAX_INSTRS
    &&& f.arity <= SIMPLE_CLOSURE_MAX_PARAMS
    &&& forall|i: int| 0 <= i < f.instructions@.len() ==> is_simple_op(#[trigger] f.instructions@[i].op)
}

/// Whether a function can be evaluated inline, without a VM call frame.
pub fn is_simple_closure(func: &BytecodeFunc) -> (b: bool)
    ensures
        b == spec_is_simple_closure(*func),
{
    if func.instructions.len() > SIMPLE_CLOSURE_MAX_INSTRS {
        return false;
    }
    if func.arity as usize > SIMPLE_CLOSURE_MAX_PARAMS {
        return false;
    }
    let mut i: usize = 0;
    while i < func.instructions.len()
        invariant
            i <= func.instructions@.len(),
            forall|j: int| 0 <= j < i ==> is_simple_op(#[trigger] func.instructions@[j].op),
        decreases func.instructions@.len() - i,
    {
        match func.instructions[i].op {
            Op::LoadConst | Op::LoadNil | Op::LoadTrue | Op::LoadFalse | Op::Move
            | Op::Add | Op::Sub | Op::Mul | Op::Div | Op::Mod | Op::Neg
            | Op::Eq | Op::Ne | Op::Lt | Op::Le | Op::Gt | Op::Ge | Op::Not
            | Op::Return | Op::CallBuiltin | Op::MakeList | Op::MarkMoved | Op::CheckNotMoved => {},
            _ => {
                return false;
            },
        }
        i += 1;
    }
    true
}

// ── Validation ──────────────────────────────────────────────────────

pub open spec fn or_else(a: Option<Seq<char>>, b: Option<Seq<char>>) -> Option<Seq<char>> {
    if a is Some { a } else { b }
}

pub open spec fn reg_err(idx: u16, field: Seq<char>, rc: nat) -> Option<Seq<char>> {
    if idx >= rc {
        Some(field + " register index "@ + decimal(idx as nat) + " >= register_count "@ + decimal(rc))
    } else {
        None
    }
}

pub open spec fn const_err(idx: u16, field: Seq<char>, cc: nat) -> Option<Seq<char>> {
    if idx >= cc {
        Some(field + " constant index "@ + decimal(idx as nat) + " >= constants.len() "@ + decimal(cc))
    } else {
        None
    }
}

pub open spec fn range_err(start: nat, count: u16, field: Seq<char>, rc: nat) -> Option<Seq<char>> {
    if count > 0 && start + count > rc {
        Some(field + " register range "@ + decimal(start) + ".."@ + decimal((start + count) as nat) + " exceeds register_count "@
            + decimal(rc))
    } else {
        None
    }
}

/// The first operand of an instruction that points outside the function's
/// registers or constants, as an error detail.
pub open spec fn instr_error(ins: Instruction, rc: nat, cc: nat) -> Option<Seq<char>> {
    let dst = ins.dst;
    let a = ins.a;
    let b = ins.b;
    match ins.op {
        Op::LoadConst => or_else(reg_err(dst, "dst"@, rc), const_err(a, "a"@, cc)),
        Op::LoadNil | Op::LoadTrue | Op::LoadFalse => reg_err(dst, "dst"@, rc),
        Op::Move | Op::Not | Op::Neg => or_else(reg_err(dst, "dst"@, rc), reg_err(a, "a"@, rc)),
        Op::Add | Op::Sub | Op::Mul | Op::Div | Op::Mod | Op::Eq | Op::Ne | Op::Lt | Op::Le | Op::Gt | Op::Ge =>
            or_else(reg_err(dst, "dst"@, rc), or_else(reg_err(a, "a"@, rc), reg_err(b, "b"@, rc))),
        Op::JumpIfFalse | Op::JumpIfTrue => reg_err(a, "a"@, rc),
        Op::Call | Op::CallBuiltin => or_else(reg_err(dst, "dst"@, rc), or_else(const_err(a, "a"@, cc),
            range_err(dst as nat + 1, b, "args"@, rc))),
        Op::CallReg => or_else(reg_err(dst, "dst"@, rc), or_else(reg_err(a, "a"@, rc),
            range_err(dst as nat + 1, b, "args"@, rc))),
        Op::Return => reg_err(a, "a"@, rc),
        Op::MakeList => or_else(reg_err(dst, "dst"@, rc), range_err(a as nat, b, "list elements"@, rc)),
        Op::MakeVariant => or_else(reg_err(dst, "dst"@, rc), or_else(const_err(a, "a"@, cc), reg_err(b, "b"@, rc))),
        Op::MakeVariant0 => or_else(reg_err(dst, "dst"@, rc), const_err(a, "a"@, cc)),
        Op::MakeClosure => or_else(reg_err(dst, "dst"@, rc), or_else(const_err(a, "a"@, cc),
            if b > rc {
                Some("b capture_start "@ + decimal(b as nat) + " > register_count "@ + decimal(rc))
            } else {
                None
            })),
        Op::MatchTag => or_else(reg_err(dst, "dst"@, rc), or_else(reg_err(a, "a"@, rc), const_err(b, "b"@, cc))),
        Op::MatchWild | Op::TryUnwrap => or_else(reg_err(dst, "dst"@, rc), reg_err(a, "a"@, rc)),
        Op::AssertRequires | Op::AssertEnsures | Op::AssertInvariant =>
            or_else(const_err(dst, "dst"@, cc), or_else(reg_err(a, "a"@, rc), const_err(b, "b"@, cc))),
        Op::MarkMoved | Op::CheckNotMoved => reg_err(a, "a"@, rc),
        Op::Jump | Op::TailCall | Op::JumpIfNoMatch | Op::Release => None,
    }
}

/// The first faulty instruction of a function: its index and the detail.
pub open spec fn first_instr_error(is: Seq<Instruction>, rc: nat, cc: nat) -> Option<(int, Seq<char>)>
    decreases is.len(),
{
    if is.len() == 0 {
        None
    } else {
        match first_instr_error(is.drop_last(), rc, cc) {
            Some(p) => Some(p),
            None => match instr_error(is.last(), rc, cc) {
                Some(d) => Some((is.len() - 1, d)),
                None => None,
            },
        }
    }
}

/// The validation message for a function, if any of its instructions is faulty.
pub open spec fn func_error(f: BytecodeFunc) -> Option<Seq<char>> {
    match first_instr_error(f.instructions@, f.register_count as nat, f.constants@.len()) {
        Some((pc, d)) => Some("function '"@ + f.name@ + "' instruction "@ + decimal(pc as nat) + ": "@ + d),
        None => None,
    }
}

fn reg_err_exec(idx: u16, field: &str, rc: usize) -> (r: Option<String>)
    ensures
        match reg_err(idx, field@, rc as nat) {
            Some(m) => r matches Some(x) && x@ == m,
            None => r is None,
        },
{
    if idx as usize >= rc {
        let mut m = String::from_str(field);
        m.append(" register index ");
        let t = u64_to_string(idx as u64);
        m.append(t.as_str());
        m.append(" >= register_count ");
        let u = u64_to_string(rc as u64);
        m.append(u.as_str());
        Some(m)
    } else {
        None
    }
}

fn const_err_exec(idx: u16, field: &str, cc: usize) -> (r: Option<String>)
    ensures
        match const_err(idx, field@, cc as nat) {
            Some(m) => r matches Some(x) && x@ == m,
            None => r is None,
        },
{
    if idx as usize >= cc {
        let mut m = String::from_str(field);
        m.append(" constant index ");
        let t = u64_to_string(idx as u64);
        m.append(t.as_str());
        m.append(" >= constants.len() ");
        let u = u64_to_string(cc as u64);
        m.append(u.as_str());
        Some(m)
    } else {
        None
    }
}

fn range_err_exec(start: u32, count: u16, field: &str, rc: usize) -> (r: Option<String>)
    ensures
        match range_err(start as nat, count, field@, rc as nat) {
            Some(m) => r matches Some(x) && x@ == m,
            None => r is None,
        },
{
    let end: u64 = start as u64 + count as u64;
    if count > 0 && end > rc as u64 {
        let mut m = String::from_str(field);
        m.append(" register range ");
        let t = u64_to_string(start as u64);
        m.append(t.as_str());
        m.append("..");
        let e = u64_to_string(end);
        m.append(e.as_str());
        m.append(" exceeds register_count ");
        let u = u64_to_string(rc as u64);
        m.append(u.as_str());
        Some(m)
    } else {
        None
    }
}

fn instr_error_exec(ins: Instruction, rc: usize, cc: usize) -> (r: Option<String>)
    ensures
        match instr_error(ins, rc as nat, cc as nat) {
            Some(m) => r matches Some(x) && x@ == m,
            None => r is None,
        },
{
    let dst = ins.dst;
    let a = ins.a;
    let b = ins.b;
    match ins.op {
        Op::LoadConst => {
            if let Some(m) = reg_err_exec(dst, "dst", rc) { return Some(m); }
            const_err_exec(a, "a", cc)
        },
        Op::LoadNil | Op::LoadTrue | Op::LoadFalse => reg_err_exec(dst, "dst", rc),
        Op::Move | Op::Not | Op::Neg => {
            if let Some(m) = reg_err_exec(dst, "dst", rc) { return Some(m); }
            reg_err_exec(a, "a", rc)
        },
        Op::Add | Op::Sub | Op::Mul | Op::Div | Op::Mod | Op::Eq | Op::Ne | Op::Lt | Op::Le | Op::Gt | Op::Ge => {
            if let Some(m) = reg_err_exec(dst, "dst", rc) { return Some(m); }
            if let Some(m) = reg_err_exec(a, "a", rc) { return Some(m); }
            reg_err_exec(b, "b", rc)
        },
        Op::JumpIfFalse | Op::JumpIfTrue => reg_err_exec(a, "a", rc),
        Op::Call | Op::CallBuiltin => {
            if let Some(m) = reg_err_exec(dst, "dst", rc) { return Some(m); }
            if let Some(m) = const_err_exec(a, "a", cc) { return Some(m); }
            range_err_exec(dst as u32 + 1, b, "args", rc)
        },
        Op::CallReg => {
            if let Some(m) = reg_err_exec(dst, "dst", rc) { return Some(m); }
            if let Some(m) = reg_err_exec(a, "a", rc) { return Some(m); }
            range_err_exec(dst as u32 + 1, b, "args", rc)
        },
        Op::Return => reg_err_exec(a, "a", rc),
        Op::MakeList => {
            if let Some(m) = reg_err_exec(dst, "dst", rc) { return Some(m); }
            range_err_exec(a as u32, b, "list elements", rc)
        },
        Op::MakeVariant => {
            if let Some(m) = reg_err_exec(dst, "dst", rc) { return Some(m); }
            if let Some(m) = const_err_exec(a, "a", cc) { return Some(m); }
            reg_err_exec(b, "b", rc)
        },
        Op::MakeVariant0 => {
            if let Some(m) = reg_err_exec(dst, "dst", rc) { return Some(m); }
            const_err_exec(a, "a", cc)
        },
        Op::MakeClosure => {
            if let Some(m) = reg_err_exec(dst, "dst", rc) { return Some(m); }
            if let Some(m) = const_err_exec(a, "a", cc) { return Some(m); }
            if b as usize > rc {
                let mut m = String::from_str("b capture_start ");
                let t = u64_to_string(b as u64);
                m.append(t.as_str());
                m.append(" > register_count ");
                let u = u64_to_string(rc as u64);
                m.append(u.as_str());
                Some(m)
            } else {
                None
            }
        },
        Op::MatchTag => {
            if let Some(m) = reg_err_exec(dst, "dst", rc) { return Some(m); }
            if let Some(m) = reg_err_exec(a, "a", rc) { return Some(m); }
            const_err_exec(b, "b", cc)
        },
        Op::MatchWild | Op::TryUnwrap => {
            if let Some(m) = reg_err_exec(dst, "dst", rc) { return Some(m); }
            reg_err_exec(a, "a", rc)
        },
        Op::AssertRequires | Op::AssertEnsures | Op::AssertInvariant => {
            if let Some(m) = const_err_exec(dst, "dst", cc) { return Some(m); }
            if let Some(m) = reg_err_exec(a, "a", rc) { return Some(m); }
            const_err_exec(b, "b", cc)
        },
        Op::MarkMoved | Op::CheckNotMoved => reg_err_exec(a, "a", rc),
        Op::Jump | Op::TailCall | Op::JumpIfNoMatch | Op::Release => None,
    }
}

/// The validation message for one function, if it has a faulty instruction.
pub fn validate_function(f: &BytecodeFunc) -> (r: Option<String>)
    ensures
        match func_error(*f) {
            Some(m) => r matches Some(x) && x@ == m,
            None => r is None,
        },
{
    let rc = f.register_count as usize;
    let cc = f.constants.len();
    let mut pc: usize = 0;
    assert(f.instructions@.take(0) =~= Seq::<Instruction>::empty());
    while pc < f.instructions.len()
        invariant
            pc <= f.instructions@.len(),
            rc == f.register_count as nat,
            cc == f.constants@.len(),
            first_instr_error(f.instructions@.take(pc as int), rc as nat, cc as nat) is None,
        decreases f.instructions@.len() - pc,
    {
        assert(f.instructions@.take(pc + 1).drop_last() =~= f.instructions@.take(pc as int));
        match instr_error_exec(f.instructions[pc], rc, cc) {
            Some(d) => {
                proof {
                    lemma_first_instr_error_prefix(f.instructions@, pc + 1, rc as nat, cc as nat);
                }
                let mut m = String::from_str("function '");
                m.append(f.name.as_str());
                m.append("' instruction ");
                let t = u64_to_string(pc as u64);
                m.append(t.as_str());
                m.append(": ");
                m.append(d.as_str());
                return Some(m);
            },
            None => {},
        }
        pc += 1;
    }
    assert(f.instructions@.take(f.instructions@.len() as int) =~= f.instructions@);
    None
}

/// A fault found in a prefix is the first fault of the whole list.
pub proof fn lemma_first_instr_error_prefix(is: Seq<Instruction>, n: int, rc: nat, cc: nat)
    requires
        0 <= n <= is.len(),
        first_instr_error(is.take(n), rc, cc) is Some,
    ensures
        first_instr_error(is, rc, cc) == first_instr_error(is.take(n), rc, cc),
    decreases is.len() - n,
{
    if n < is.len() {
        assert(is.take(n + 1).drop_last() =~= is.take(n));
        lemma_first_instr_error_prefix(is, n + 1, rc, cc);
    } else {
        assert(is.take(n) =~= is);
    }
}


// ── The VM's function table ─────────────────────────────────────────

/// What the compiler records of a function for `fn-metadata`.
#[derive(Debug)]
pub struct FnDefMetadata {
    pub name: String,
    pub intent: Option<String>,
    pub param_names: Vec<String>,
    pub param_types: Vec<String>,
    pub return_type: String,
    pub requires: Vec<String>,
    pub ensures: Vec<String>,
}

/// Call depth a fresh VM allows.
pub const DEFAULT_MAX_CALL_DEPTH: usize = 10_000;

/// The map a list of functions stands for, by name; later entries win.
pub open spec fn funcs_map(s: Seq<BytecodeFunc>) -> Map<Seq<char>, BytecodeFunc>
    decreases s.len(),
{
    if s.len() == 0 {
        Map::empty()
    } else {
        funcs_map(s.drop_last()).insert(s.last().name@, s.last())
    }
}

pub open spec fn meta_map(s: Seq<FnDefMetadata>) -> Map<Seq<char>, FnDefMetadata>
    decreases s.len(),
{
    if s.len() == 0 {
        Map::empty()
    } else {
        meta_map(s.drop_last()).insert(s.last().name@, s.last())
    }
}

pub open spec fn names_unique(s: Seq<BytecodeFunc>) -> bool {
    forall|i: int, j: int| 0 <= i < s.len() && 0 <= j < s.len() && #[trigger] s[i].name@ == #[trigger] s[j].name@ ==> i == j
}

/// With distinct names, every entry is the map's value for its name and
/// every name of the map has an entry.
pub proof fn lemma_funcs_map_unique(s: Seq<BytecodeFunc>)
    requires
        names_unique(s),
    ensures
        forall|i: int| 0 <= i < s.len() ==> #[trigger] funcs_map(s).contains_key(s[i].name@) && funcs_map(s)[s[i].name@] == s[i],
        forall|k: Seq<char>| #[trigger] funcs_map(s).contains_key(k) ==> exists|i: int| 0 <= i < s.len() && #[trigger] s[i].name@ == k,
    decreases s.len(),
{
    if s.len() > 0 {
        let p = s.drop_last();
        assert(names_unique(p)) by {
            assert forall|i: int, j: int| 0 <= i < p.len() && 0 <= j < p.len() && #[trigger] p[i].name@ == #[trigger] p[j].name@ implies i == j by {
                assert(s[i] == p[i] && s[j] == p[j]);
            }
        }
        lemma_funcs_map_unique(p);
        assert forall|i: int| 0 <= i < s.len() implies #[trigger] funcs_map(s).contains_key(s[i].name@) && funcs_map(s)[s[i].name@] == s[i] by {
            if i < s.len() - 1 {
                assert(p[i] == s[i]);
                assert(funcs_map(p).contains_key(p[i].name@));
                assert(s[i].name@ != s[s.len() - 1].name@);
            }
        }
        assert forall|k: Seq<char>| #[trigger] funcs_map(s).contains_key(k) implies exists|i: int| 0 <= i < s.len() && #[trigger] s[i].name@ == k by {
            if k == s.last().name@ {
                assert(s[s.len() - 1].name@ == k);
            } else {
                assert(funcs_map(p).contains_key(k));
                let i = choose|i: int| 0 <= i < p.len() && #[trigger] p[i].name@ == k;
                assert(s[i].name@ == k);
            }
        }
    }
}

/// The bytecode VM's loaded state: its function table, the metadata the
/// compiler recorded, and the call-depth limit.
pub struct BytecodeVm {
    functions: Vec<BytecodeFunc>,
    fn_metadata: Vec<FnDefMetadata>,
    max_call_depth: usize,
}

fn find_func(fs: &Vec<BytecodeFunc>, name: &str) -> (r: Option<usize>)
    ensures
        match r {
            Some(i) => i < fs@.len() && fs@[i as int].name@ == name@,
            None => forall|j: int| 0 <= j < fs@.len() ==> (#[trigger] fs@[j]).name@ != name@,
        },
{
    let mut i: usize = 0;
    while i < fs.len()
        invariant
            i <= fs@.len(),
            forall|j: int| 0 <= j < i ==> (#[trigger] fs@[j]).name@ != name@,
        decreases fs@.len() - i,
    {
        if str_eq(fs[i].name.as_str(), name) {
            return Some(i);
        }
        i += 1;
    }
    None
}

fn find_meta(ms: &Vec<FnDefMetadata>, name: &str) -> (r: Option<usize>)
    ensures
        match r {
            Some(i) => i < ms@.len() && ms@[i as int].name@ == name@ && meta_map(ms@).contains_key(name@)
                && meta_map(ms@)[name@] == ms@[i as int],
            None => !meta_map(ms@).contains_key(name@),
        },
{
    let mut j = ms.len();
    while j > 0
        invariant
            j <= ms@.len(),
            forall|m: int| j <= m < ms@.len() ==> (#[trigger] ms@[m]).name@ != name@,
        decreases j,
    {
        if str_eq(ms[j - 1].name.as_str(), name) {
            proof {
                lemma_meta_last(ms@, j - 1);
            }
            return Some(j - 1);
        }
        j -= 1;
    }
    proof {
        lemma_meta_absent(ms@, name@);
    }
    None
}

pub proof fn lemma_meta_last(s: Seq<FnDefMetadata>, i: int)
    requires
        0 <= i < s.len(),
        forall|j: int| i < j < s.len() ==> (#[trigger] s[j]).name@ != s[i].name@,
    ensures
        meta_map(s).contains_key(s[i].name@),
        meta_map(s)[s[i].name@] == s[i],
    decreases s.len(),
{
    if i < s.len() - 1 {
        lemma_meta_last(s.drop_last(), i);
    }
}

pub proof fn lemma_meta_absent(s: Seq<FnDefMetadata>, k: Seq<char>)
    requires
        forall|j: int| 0 <= j < s.len() ==> (#[trigger] s[j]).name@ != k,
    ensures
        !meta_map(s).contains_key(k),
    decreases s.len(),
{
    if s.len() > 0 {
        lemma_meta_absent(s.drop_last(), k);
    }
}

/// Two functions alike in every field, constants copied.
pub open spec fn func_same(a: BytecodeFunc, b: BytecodeFunc) -> bool {
    &&& a.name@ == b.name@
    &&& a.arity == b.arity
    &&& a.register_count == b.register_count
    &&& a.capture_count == b.capture_count
    &&& a.instructions@ == b.instructions@
    &&& seq_same(a.constants@, b.constants@)
}

fn clone_instructions(x: &Vec<Instruction>) -> (r: Vec<Instruction>)
    ensures
        r@ == x@,
{
    let mut out: Vec<Instruction> = Vec::new();
    let mut i: usize = 0;
    while i < x.len()
        invariant
            i <= x@.len(),
            out@ == x@.take(i as int),
        decreases x@.len() - i,
    {
        out.push(x[i]);
        i += 1;
        assert(out@ =~= x@.take(i as int));
    }
    assert(x@.take(x@.len() as int) =~= x@);
    out
}

fn clone_func(f: &BytecodeFunc) -> (r: BytecodeFunc)
    ensures
        func_same(*f, r),
{
    BytecodeFunc {
        name: f.name.clone(),
        arity: f.arity,
        register_count: f.register_count,
        capture_count: f.capture_count,
        instructions: clone_instructions(&f.instructions),
        constants: clone_value_list(&f.constants),
    }
}

fn clone_strings(x: &Vec<String>) -> (r: Vec<String>)
    ensures
        r@.len() == x@.len(),
        forall|i: int| 0 <= i < x@.len() ==> (#[trigger] r@[i])@ == x@[i]@,
{
    let mut out: Vec<String> = Vec::new();
    let mut i: usize = 0;
    while i < x.len()
        invariant
            i <= x@.len(),
            out@.len() == i,
            forall|j: int| 0 <= j < i ==> (#[trigger] out@[j])@ == x@[j]@,
        decreases x@.len() - i,
    {
        out.push(x[i].clone());
        i += 1;
    }
    out
}

fn clone_meta(m: &FnDefMetadata) -> (r: FnDefMetadata)
    ensures
        r.name@ == m.name@,
{
    let intent = match &m.intent {
        Some(s) => Some(s.clone()),
        None => None,
    };
    FnDefMetadata {
        name: m.name.clone(),
        intent,
        param_names: clone_strings(&m.param_names),
        param_types: clone_strings(&m.param_types),
        return_type: m.return_type.clone(),
        requires: clone_strings(&m.requires),
        ensures: clone_strings(&m.ensures),
    }
}

impl BytecodeVm {
    #[verifier::type_invariant]
    spec fn inv(&self) -> bool {
        names_unique(self.functions@)
    }

    /// The loaded functions, by name.
    pub closed spec fn functions_view(&self) -> Map<Seq<char>, BytecodeFunc> {
        funcs_map(self.functions@)
    }

    /// The recorded metadata, by function name.
    pub closed spec fn metadata_view(&self) -> Map<Seq<char>, FnDefMetadata> {
        meta_map(self.fn_metadata@)
    }

    pub closed spec fn spec_max_call_depth(&self) -> usize {
        self.max_call_depth
    }

    /// A VM with nothing loaded and the default call-depth limit.
    pub fn new() -> (vm: BytecodeVm)
        ensures
            vm.functions_view() == Map::<Seq<char>, BytecodeFunc>::empty(),
            vm.metadata_view() == Map::<Seq<char>, FnDefMetadata>::empty(),
            vm.spec_max_call_depth() == DEFAULT_MAX_CALL_DEPTH,
    {
        BytecodeVm { functions: Vec::new(), fn_metadata: Vec::new(), max_call_depth: DEFAULT_MAX_CALL_DEPTH }
    }

    /// The call-depth limit.
    pub fn max_call_depth(&self) -> (d: usize)
        ensures
            d == self.spec_max_call_depth(),
    {
        self.max_call_depth
    }

    /// Sets the call-depth limit.
    pub fn set_max_call_depth(&mut self, depth: usize)
        ensures
            final(self).spec_max_call_depth() == depth,
            final(self).functions_view() == old(self).functions_view(),
            final(self).metadata_view() == old(self).metadata_view(),
    {
        proof {
            use_type_invariant(&*self);
        }
        self.max_call_depth = depth;
    }

    /// A VM for a spawned thread: copies of the functions and metadata, the
    /// same call-depth limit.
    pub fn spawn_child(&self) -> (c: BytecodeVm)
        ensures
            c.spec_max_call_depth() == self.spec_max_call_depth(),
            c.functions_view().dom() == self.functions_view().dom(),
            forall|k: Seq<char>| #[trigger] c.functions_view().contains_key(k) ==> func_same(self.functions_view()[k], c.functions_view()[k]),
            c.metadata_view().dom() == self.metadata_view().dom(),
    {
        proof {
            use_type_invariant(self);
        }
        let mut fs: Vec<BytecodeFunc> = Vec::new();
        let mut i: usize = 0;
        while i < self.functions.len()
            invariant
                i <= self.functions@.len(),
                fs@.len() == i,
                forall|j: int| 0 <= j < i ==> func_same(self.functions@[j], #[trigger] fs@[j]),
            decreases self.functions@.len() - i,
        {
            fs.push(clone_func(&self.functions[i]));
            i += 1;
        }
        let mut ms: Vec<FnDefMetadata> = Vec::new();
        let mut j: usize = 0;
        while j < self.fn_metadata.len()
            invariant
                j <= self.fn_metadata@.len(),
                ms@.len() == j,
                forall|m: int| 0 <= m < j ==> (#[trigger] ms@[m]).name@ == self.fn_metadata@[m].name@,
            decreases self.fn_metadata@.len() - j,
        {
            ms.push(clone_meta(&self.fn_metadata[j]));
            j += 1;
        }
        proof {
            let a = self.functions@;
            let b = fs@;
            assert(names_unique(b)) by {
                assert forall|x: int, y: int| 0 <= x < b.len() && 0 <= y < b.len() && #[trigger] b[x].name@ == #[trigger] b[y].name@ implies x == y by {
                    assert(a[x].name@ == b[x].name@ && a[y].name@ == b[y].name@);
                }
            }
            lemma_funcs_map_unique(a);
            lemma_funcs_map_unique(b);
            assert forall|k: Seq<char>| #[trigger] funcs_map(b).contains_key(k) <==> funcs_map(a).contains_key(k) by {
                if funcs_map(b).contains_key(k) {
                    let x = choose|x: int| 0 <= x < b.len() && #[trigger] b[x].name@ == k;
                    assert(a[x].name@ == k);
                }
                if funcs_map(a).contains_key(k) {
                    let x = choose|x: int| 0 <= x < a.len() && #[trigger] a[x].name@ == k;
                    assert(b[x].name@ == k);
                }
            }
            assert(funcs_map(b).dom() =~= funcs_map(a).dom());
            assert forall|k: Seq<char>| #[trigger] funcs_map(b).contains_key(k) implies func_same(funcs_map(a)[k], funcs_map(b)[k]) by {
                let x = choose|x: int| 0 <= x < b.len() && #[trigger] b[x].name@ == k;
                assert(a[x].name@ == k);
                assert(func_same(a[x], b[x]));
            }
            lemma_meta_dom(self.fn_metadata@, ms@);
        }
        BytecodeVm { functions: fs, fn_metadata: ms, max_call_depth: self.max_call_depth }
    }

    /// Loads a function, replacing any loaded under the same name.
    pub fn load_function(&mut self, func: BytecodeFunc)
        ensures
            final(self).functions_view() == old(self).functions_view().insert(func.name@, func),
            final(self).metadata_view() == old(self).metadata_view(),
            final(self).spec_max_call_depth() == old(self).spec_max_call_depth(),
    {
        proof {
            use_type_invariant(&*self);
        }
        let ghost k = func.name@;
        let ghost fv = func;
        let mut fs: Vec<BytecodeFunc> = Vec::new();
        std::mem::swap(&mut fs, &mut self.functions);
        let ghost old_fs = fs@;
        match find_func(&fs, func.name.as_str()) {
            Some(i) => {
                fs.set(i, func);
                proof {
                    assert(names_unique(fs@)) by {
                        assert forall|x: int, y: int| 0 <= x < fs@.len() && 0 <= y < fs@.len() && #[trigger] fs@[x].name@ == #[trigger] fs@[y].name@ implies x == y by {
                            assert(fs@[x].name@ == old_fs[x].name@);
                            assert(fs@[y].name@ == old_fs[y].name@);
                        }
                    }
                    lemma_funcs_map_unique(old_fs);
                    lemma_funcs_map_unique(fs@);
                    assert forall|kk: Seq<char>| #[trigger] funcs_map(fs@).contains_key(kk) <==> funcs_map(old_fs).insert(k, fv).contains_key(kk) by {
                        if funcs_map(fs@).contains_key(kk) {
                            let x = choose|x: int| 0 <= x < fs@.len() && #[trigger] fs@[x].name@ == kk;
                            assert(old_fs[x].name@ == kk);
                        }
                        if funcs_map(old_fs).contains_key(kk) {
                            let x = choose|x: int| 0 <= x < old_fs.len() && #[trigger] old_fs[x].name@ == kk;
                            assert(fs@[x].name@ == kk);
                        }
                        if kk == k {
                            assert(fs@[i as int].name@ == kk);
                        }
                    }
                    assert forall|kk: Seq<char>| #[trigger] funcs_map(fs@).contains_key(kk) implies funcs_map(fs@)[kk] == funcs_map(old_fs).insert(k, fv)[kk] by {
                        let x = choose|x: int| 0 <= x < fs@.len() && #[trigger] fs@[x].name@ == kk;
                        if x == i {
                            assert(kk == k);
                        } else {
                            assert(old_fs[x].name@ == kk);
                            assert(kk != k) by {
                                assert(old_fs[i as int].name@ == k);
                            }
                        }
                    }
                    assert(funcs_map(fs@) =~= funcs_map(old_fs).insert(k, fv));
                }
            },
            None => {
                fs.push(func);
                proof {
                    assert(fs@.drop_last() =~= old_fs);
                    assert(names_unique(fs@)) by {
                        assert forall|x: int, y: int| 0 <= x < fs@.len() && 0 <= y < fs@.len() && #[trigger] fs@[x].name@ == #[trigger] fs@[y].name@ implies x == y by {
                            if x < old_fs.len() {
                                assert(fs@[x] == old_fs[x]);
                            }
                            if y < old_fs.len() {
                                assert(fs@[y] == old_fs[y]);
                            }
                        }
                    }
                }
            },
        }
        self.functions = fs;
    }

    /// The function loaded under `name`.
    pub fn get_function(&self, name: &str) -> (r: Option<&BytecodeFunc>)
        ensures
            match r {
                Some(f) => self.functions_view().contains_key(name@) && *f == self.functions_view()[name@],
                None => !self.functions_view().contains_key(name@),
            },
    {
        proof {
            use_type_invariant(self);
            lemma_funcs_map_unique(self.functions@);
        }
        match find_func(&self.functions, name) {
            Some(i) => {
                proof {
                    assert(funcs_map(self.functions@).contains_key(self.functions@[i as int].name@));
                }
                Some(&self.functions[i])
            },
            None => None,
        }
    }

    /// Records metadata, replacing any recorded under the same name.
    pub fn store_fn_metadata(&mut self, meta: FnDefMetadata)
        ensures
            final(self).metadata_view() == old(self).metadata_view().insert(meta.name@, meta),
            final(self).functions_view() == old(self).functions_view(),
            final(self).spec_max_call_depth() == old(self).spec_max_call_depth(),
    {
        let ghost k = meta.name@;
        let ghost mv = meta;
        let ghost old_ms = self.fn_metadata@;
        proof {
            use_type_invariant(&*self);
        }
        let mut ms: Vec<FnDefMetadata> = Vec::new();
        std::mem::swap(&mut ms, &mut self.fn_metadata);
        ms.push(meta);
        assert(ms@.drop_last() =~= old_ms);
        self.fn_metadata = ms;
    }

    /// The metadata recorded for `name`.
    pub fn get_fn_metadata(&self, name: &str) -> (r: Option<&FnDefMetadata>)
        ensures
            match r {
                Some(m) => self.metadata_view().contains_key(name@) && *m == self.metadata_view()[name@],
                None => !self.metadata_view().contains_key(name@),
            },
    {
        match find_meta(&self.fn_metadata, name) {
            Some(i) => Some(&self.fn_metadata[i]),
            None => None,
        }
    }

    /// Checks every loaded function for operands that point outside its
    /// registers or constants. On failure, the error names one faulty
    /// function and its first faulty instruction.
    #[verifier::loop_isolation(false)]
    pub fn validate_bytecode(&self) -> (r: Result<(), RuntimeError>)
        ensures
            r is Ok <==> forall|k: Seq<char>| #[trigger] self.functions_view().contains_key(k)
                ==> func_error(self.functions_view()[k]) is None,
            r matches Err(e) ==> e matches RuntimeError::BytecodeValidation(m) && exists|k: Seq<char>|
                #[trigger] self.functions_view().contains_key(k) && func_error(self.functions_view()[k]) == Some(m@),
    {
        proof {
            use_type_invariant(self);
            lemma_funcs_map_unique(self.functions@);
        }
        let mut i: usize = 0;
        while i < self.functions.len()
            invariant
                i <= self.functions@.len(),
                forall|j: int| 0 <= j < i ==> func_error(#[trigger] self.functions@[j]) is None,
            decreases self.functions@.len() - i,
        {
            match validate_function(&self.functions[i]) {
                Some(m) => {
                    proof {
                        let k = self.functions@[i as int].name@;
                        assert(self.functions_view().contains_key(k));
                    }
                    return Err(RuntimeError::BytecodeValidation(m));
                },
                None => {},
            }
            i += 1;
        }
        proof {
            assert forall|k: Seq<char>| #[trigger] self.functions_view().contains_key(k)
                implies func_error(self.functions_view()[k]) is None by {
                let x = choose|x: int| 0 <= x < self.functions@.len() && #[trigger] self.functions@[x].name@ == k;
                assert(self.functions_view()[k] == self.functions@[x]);
            }
        }
        Ok(())
    }
}

pub proof fn lemma_meta_dom(a: Seq<FnDefMetadata>, b: Seq<FnDefMetadata>)
    requires
        a.len() == b.len(),
        forall|m: int| 0 <= m < a.len() ==> (#[trigger] b[m]).name@ == a[m].name@,
    ensures
        meta_map(b).dom() == meta_map(a).dom(),
    decreases a.len(),
{
    if a.len() > 0 {
        lemma_meta_dom(a.drop_last(), b.drop_last());
        assert(b.last().name@ == a.last().name@);
        assert(meta_map(b).dom() =~= meta_map(a).dom());
    } else {
        assert(meta_map(b).dom() =~= meta_map(a).dom());
    }
}

} // verus!
