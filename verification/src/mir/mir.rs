//! The mid-level representation a program is lowered to before code
//! generation: functions made of labelled basic blocks of instructions.
use vstd::prelude::*;

verus! {

/// A lowered program: its functions, the instructions that initialize its
/// globals, and whether it is a program's entry module.
#[derive(Debug, Clone)]
pub struct MirProgram {
    pub functions: Vec<MirFunction>,
    pub globals: Vec<MirInstr>,
    pub is_main_entry: bool,
}

/// A lowered function.
#[derive(Debug, Clone)]
pub struct MirFunction {
    pub name: String,
    pub params: Vec<String>,
    /// The written type of each parameter, as text.
    pub param_types: Vec<Option<String>>,
    /// The return type as text; `None` when none is written.
    pub return_type: Option<String>,
    pub blocks: Vec<MirBlock>,
}

/// A basic block: a label, straight-line instructions and an optional
/// terminator (a jump or a return).
#[derive(Debug, Clone)]
pub struct MirBlock {
    pub label: String,
    pub instrs: Vec<MirInstr>,
    pub terminator: Option<MirInstr>,
}

/// The instructions. Names are the variables and temporaries (`%n`) they
/// define or read.
#[derive(Debug, Clone)]
pub enum MirInstr {
    ConstInt { name: String, value: i64 },
    /// A float constant, kept as its source text.
    ConstFloat { name: String, value: String },
    ConstBool { name: String, value: bool },
    ConstString { name: String, value: String },
    Array { name: String, elements: Vec<String> },
    /// A map literal with its key and value temporaries.
    MapCreate { name: String, entries: Vec<(String, String)> },
    RangeCreate { name: String, start: String, end: String, inclusive: bool },
    ArrayLen { name: String, array: String },
    ArrayGet { name: String, array: String, index: String },
    ArraySet { array: String, index: String, value: String },
    MapGet { name: String, map: String, key: String },
    MapSet { map: String, key: String, value: String },
    MapLen { name: String, map: String },
    /// The key and value at a position of a map, as a pair.
    MapGetPair { name: String, map: String, index: String },
    Add(String, String, String),
    Sub(String, String, String),
    Mul(String, String, String),
    Div(String, String, String),
    /// `(op, dest, lhs, rhs)`: arithmetic, comparisons and logic, the
    /// operator tagged with the operand type (`add:int`, `lt:float`, ...).
    BinaryOp(String, String, String, String),
    StringConcat { name: String, left: String, right: String },
    Assign { name: String, value: String, mutable: bool },
    TupleCreate { name: String, elements: Vec<String> },
    TupleExtract { name: String, source: String, index: usize },
    TupleGet { name: String, tuple: String, index: usize },
    Arg { name: String },
    Call { dest: Vec<String>, func: String, args: Vec<String> },
    Return { values: Vec<String> },
    Jump { target: String },
    CondJump { cond: String, then_block: String, else_block: String },
    Print { values: Vec<String> },
    StructInit { name: String, struct_name: String, fields: Vec<(String, String)> },
    StructGet { name: String, struct_instance: String, field: String },
    StructSet { struct_instance: String, field: String, value: String },
    EnumInit { name: String, enum_name: String, variant: String, value: Option<String> },
    EnumMatch { name: String, enum_instance: String, variant: String },
    Load { name: String, address: String },
    Store { address: String, value: String },
    /// Take one more reference to a reference-counted value.
    IncRef { value: String },
    /// Drop one reference to a reference-counted value.
    DecRef { value: String },
}

} // verus!
