//! The instruction set of solve rows.
use crate::solve::error::Real;
use vstd::prelude::*;

verus! {

/// Index of a register.
pub type Reg = u32;

#[derive(Clone, Copy, Debug, PartialEq, Eq, Structural)]
pub enum UnaryOp {
    Neg,
    Not,
    Abs,
    Sign,
    Sqrt,
    Floor,
    Ceil,
    Trunc,
    Sin,
    Cos,
    Tan,
    Asin,
    Acos,
    Atan,
    Sinh,
    Cosh,
    Tanh,
    Exp,
    Log,
    Log10,
}

#[derive(Clone, Copy, Debug, PartialEq, Eq, Structural)]
pub enum BinaryOp {
    Add,
    Sub,
    Mul,
    Div,
    Pow,
    And,
    Or,
    Atan2,
    Min,
    Max,
}

#[derive(Clone, Copy, Debug, PartialEq, Eq, Structural)]
pub enum CompareOp {
    Lt,
    Le,
    Gt,
    Ge,
    Eq,
    Ne,
}

/// Pseudo-random generators that a row may call.
#[derive(Clone, Copy, Debug, PartialEq, Eq, Structural)]
pub enum RandomGenerator {
    Xorshift64Star,
    Xorshift128Plus,
    Xorshift1024Star,
}

/// One instruction of a solve row.
#[allow(inconsistent_fields)]
#[derive(Clone, Copy, Debug, PartialEq, Eq, Structural)]
pub enum LinearOp {
    Const { dst: Reg, value: Real },
    LoadTime { dst: Reg },
    LoadY { dst: Reg, index: usize },
    LoadP { dst: Reg, index: usize },
    LoadIndexedP { dst: Reg, base: usize, count: usize, index: Reg },
    LoadIndexedSeed { dst: Reg, base: usize, count: usize, index: Reg },
    LoadSeed { dst: Reg, index: usize },
    Move { dst: Reg, src: Reg },
    LinearSolveComponent { dst: Reg, matrix_start: Reg, rhs_start: Reg, n: usize, component: usize },
    Unary { dst: Reg, op: UnaryOp, arg: Reg },
    Binary { dst: Reg, op: BinaryOp, lhs: Reg, rhs: Reg },
    Compare { dst: Reg, op: CompareOp, lhs: Reg, rhs: Reg },
    Select { dst: Reg, cond: Reg, if_true: Reg, if_false: Reg },
    TableBounds { dst: Reg, table_id: Reg, max: bool },
    TableLookup { dst: Reg, table_id: Reg, column: Reg, input: Reg },
    TableLookupSlope { dst: Reg, table_id: Reg, column: Reg, input: Reg },
    TableNextEvent { dst: Reg, table_id: Reg, time: Reg },
    RandomInitialState {
        dst: Reg,
        generator: RandomGenerator,
        local_seed: Reg,
        global_seed: Reg,
        state_len: usize,
        state_index: usize,
    },
    RandomResult { dst: Reg, generator: RandomGenerator, state_start: Reg, state_len: usize },
    RandomState {
        dst: Reg,
        generator: RandomGenerator,
        state_start: Reg,
        state_len: usize,
        state_index: usize,
    },
    ImpureRandomInit { dst: Reg, seed: Reg },
    ImpureRandom { dst: Reg, id: Reg, call_site: usize },
    ImpureRandomInteger { dst: Reg, id: Reg, imin: Reg, imax: Reg, call_site: usize },
    StoreOutput { src: Reg },
}

impl LinearOp {
    /// The register that the instruction writes.
    pub open spec fn dst(self) -> Option<Reg> {
        match self {
            LinearOp::Const { dst, .. } => Some(dst),
            LinearOp::LoadTime { dst } => Some(dst),
            LinearOp::LoadY { dst, .. } => Some(dst),
            LinearOp::LoadP { dst, .. } => Some(dst),
            LinearOp::LoadIndexedP { dst, .. } => Some(dst),
            LinearOp::LoadIndexedSeed { dst, .. } => Some(dst),
            LinearOp::LoadSeed { dst, .. } => Some(dst),
            LinearOp::Move { dst, .. } => Some(dst),
            LinearOp::LinearSolveComponent { dst, .. } => Some(dst),
            LinearOp::Unary { dst, .. } => Some(dst),
            LinearOp::Binary { dst, .. } => Some(dst),
            LinearOp::Compare { dst, .. } => Some(dst),
            LinearOp::Select { dst, .. } => Some(dst),
            LinearOp::TableBounds { dst, .. } => Some(dst),
            LinearOp::TableLookup { dst, .. } => Some(dst),
            LinearOp::TableLookupSlope { dst, .. } => Some(dst),
            LinearOp::TableNextEvent { dst, .. } => Some(dst),
            LinearOp::RandomInitialState { dst, .. } => Some(dst),
            LinearOp::RandomResult { dst, .. } => Some(dst),
            LinearOp::RandomState { dst, .. } => Some(dst),
            LinearOp::ImpureRandomInit { dst, .. } => Some(dst),
            LinearOp::ImpureRandom { dst, .. } => Some(dst),
            LinearOp::ImpureRandomInteger { dst, .. } => Some(dst),
            LinearOp::StoreOutput { .. } => None,
        }
    }

    /// Whether the instruction reads register `r`.
    ///
    /// A component of a linear solve reads the `n * n` registers of the matrix
    /// and the `n` registers of the right-hand side; a random draw reads its
    /// whole state.
    pub open spec fn reads(self, r: int) -> bool {
        match self {
            LinearOp::Const { .. } => false,
            LinearOp::LoadTime { .. } => false,
            LinearOp::LoadY { .. } => false,
            LinearOp::LoadP { .. } => false,
            LinearOp::LoadSeed { .. } => false,
            LinearOp::LoadIndexedP { index, .. } => r == index,
            LinearOp::LoadIndexedSeed { index, .. } => r == index,
            LinearOp::Move { src, .. } => r == src,
            LinearOp::LinearSolveComponent { matrix_start, rhs_start, n, .. } => {
                ||| matrix_start <= r < matrix_start + n * n
                ||| rhs_start <= r < rhs_start + n
            },
            LinearOp::Unary { arg, .. } => r == arg,
            LinearOp::Binary { lhs, rhs, .. } => r == lhs || r == rhs,
            LinearOp::Compare { lhs, rhs, .. } => r == lhs || r == rhs,
            LinearOp::Select { cond, if_true, if_false, .. } => r == cond || r == if_true || r
                == if_false,
            LinearOp::TableBounds { table_id, .. } => r == table_id,
            LinearOp::TableLookup { table_id, column, input, .. } => r == table_id || r == column
                || r == input,
            LinearOp::TableLookupSlope { table_id, column, input, .. } => r == table_id || r
                == column || r == input,
            LinearOp::TableNextEvent { table_id, time, .. } => r == table_id || r == time,
            LinearOp::RandomInitialState { local_seed, global_seed, .. } => r == local_seed || r
                == global_seed,
            LinearOp::RandomResult { state_start, state_len, .. } => state_start <= r < state_start
                + state_len,
            LinearOp::RandomState { state_start, state_len, .. } => state_start <= r < state_start
                + state_len,
            LinearOp::ImpureRandomInit { seed, .. } => r == seed,
            LinearOp::ImpureRandom { id, .. } => r == id,
            LinearOp::ImpureRandomInteger { id, imin, imax, .. } => r == id || r == imin || r
                == imax,
            LinearOp::StoreOutput { src } => r == src,
        }
    }

    /// The register that the instruction writes, if it writes one.
    pub fn dst_register(&self) -> (r: Option<Reg>)
        ensures
            r == self.dst(),
    {
        match *self {
            LinearOp::Const { dst, .. } => Some(dst),
            LinearOp::LoadTime { dst } => Some(dst),
            LinearOp::LoadY { dst, .. } => Some(dst),
            LinearOp::LoadP { dst, .. } => Some(dst),
            LinearOp::LoadIndexedP { dst, .. } => Some(dst),
            LinearOp::LoadIndexedSeed { dst, .. } => Some(dst),
            LinearOp::LoadSeed { dst, .. } => Some(dst),
            LinearOp::Move { dst, .. } => Some(dst),
            LinearOp::LinearSolveComponent { dst, .. } => Some(dst),
            LinearOp::Unary { dst, .. } => Some(dst),
            LinearOp::Binary { dst, .. } => Some(dst),
            LinearOp::Compare { dst, .. } => Some(dst),
            LinearOp::Select { dst, .. } => Some(dst),
            LinearOp::TableBounds { dst, .. } => Some(dst),
            LinearOp::TableLookup { dst, .. } => Some(dst),
            LinearOp::TableLookupSlope { dst, .. } => Some(dst),
            LinearOp::TableNextEvent { dst, .. } => Some(dst),
            LinearOp::RandomInitialState { dst, .. } => Some(dst),
            LinearOp::RandomResult { dst, .. } => Some(dst),
            LinearOp::RandomState { dst, .. } => Some(dst),
            LinearOp::ImpureRandomInit { dst, .. } => Some(dst),
            LinearOp::ImpureRandom { dst, .. } => Some(dst),
            LinearOp::ImpureRandomInteger { dst, .. } => Some(dst),
            LinearOp::StoreOutput { .. } => None,
        }
    }
}

/// The name of the instruction.
pub open spec fn linear_op_name_spec(op: LinearOp) -> Seq<char> {
    match op {
        LinearOp::Const { .. } => "Const"@,
        LinearOp::LoadTime { .. } => "LoadTime"@,
        LinearOp::LoadY { .. } => "LoadY"@,
        LinearOp::LoadP { .. } => "LoadP"@,
        LinearOp::LoadIndexedP { .. } => "LoadIndexedP"@,
        LinearOp::LoadSeed { .. } => "LoadSeed"@,
        LinearOp::LoadIndexedSeed { .. } => "LoadIndexedSeed"@,
        LinearOp::Move { .. } => "Move"@,
        LinearOp::LinearSolveComponent { .. } => "LinearSolveComponent"@,
        LinearOp::TableBounds { .. } => "TableBounds"@,
        LinearOp::TableLookup { .. } => "TableLookup"@,
        LinearOp::TableLookupSlope { .. } => "TableLookupSlope"@,
        LinearOp::TableNextEvent { .. } => "TableNextEvent"@,
        LinearOp::RandomInitialState { .. } => "RandomInitialState"@,
        LinearOp::RandomResult { .. } => "RandomResult"@,
        LinearOp::RandomState { .. } => "RandomState"@,
        LinearOp::ImpureRandomInit { .. } => "ImpureRandomInit"@,
        LinearOp::ImpureRandom { .. } => "ImpureRandom"@,
        LinearOp::ImpureRandomInteger { .. } => "ImpureRandomInteger"@,
        LinearOp::Unary { .. } => "Unary"@,
        LinearOp::Binary { .. } => "Binary"@,
        LinearOp::Compare { .. } => "Compare"@,
        LinearOp::Select { .. } => "Select"@,
        LinearOp::StoreOutput { .. } => "StoreOutput"@,
    }
}

/// The name of the instruction.
pub fn linear_op_name(op: &LinearOp) -> (name: &'static str)
    ensures
        name@ == linear_op_name_spec(*op),
{
    match op {
        LinearOp::Const { .. } => "Const",
        LinearOp::LoadTime { .. } => "LoadTime",
        LinearOp::LoadY { .. } => "LoadY",
        LinearOp::LoadP { .. } => "LoadP",
        LinearOp::LoadIndexedP { .. } => "LoadIndexedP",
        LinearOp::LoadSeed { .. } => "LoadSeed",
        LinearOp::LoadIndexedSeed { .. } => "LoadIndexedSeed",
        LinearOp::Move { .. } => "Move",
        LinearOp::LinearSolveComponent { .. } => "LinearSolveComponent",
        LinearOp::TableBounds { .. } => "TableBounds",
        LinearOp::TableLookup { .. } => "TableLookup",
        LinearOp::TableLookupSlope { .. } => "TableLookupSlope",
        LinearOp::TableNextEvent { .. } => "TableNextEvent",
        LinearOp::RandomInitialState { .. } => "RandomInitialState",
        LinearOp::RandomResult { .. } => "RandomResult",
        LinearOp::RandomState { .. } => "RandomState",
        LinearOp::ImpureRandomInit { .. } => "ImpureRandomInit",
        LinearOp::ImpureRandom { .. } => "ImpureRandom",
        LinearOp::ImpureRandomInteger { .. } => "ImpureRandomInteger",
        LinearOp::Unary { .. } => "Unary",
        LinearOp::Binary { .. } => "Binary",
        LinearOp::Compare { .. } => "Compare",
        LinearOp::Select { .. } => "Select",
        LinearOp::StoreOutput { .. } => "StoreOutput",
    }
}

} // verus!
