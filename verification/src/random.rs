//! Expressions that shuffle or sample a column at random.
//!
//! Each of them carries the seed that it will run with. A caller that names no
//! seed gets one from the random generator of the process.

use crate::kernels::global_random_u64;
use vstd::prelude::*;

verus! {

/// How rows are drawn at random.
#[derive(Clone, Copy, Debug, PartialEq, Eq, Structural)]
pub enum RandomMethod {
    Shuffle,
    Sample { is_fraction: bool, with_replacement: bool, shuffle: bool },
}

/// A function of an expression.
#[derive(Clone, Copy, Debug, PartialEq, Eq, Structural)]
pub enum FunctionExpr {
    Random { method: RandomMethod, seed: Option<u64> },
}

/// An expression over the columns of a frame.
#[derive(Debug)]
pub enum Expr {
    /// The column of this name.
    Column(String),
    /// A whole number.
    Literal(i64),
    /// A function of the expressions in `input`.
    Function { input: Vec<Expr>, function: FunctionExpr },
}

/// `result` applies the random method `method` with the seed `seed` to `input`.
pub open spec fn is_random(result: Expr, input: Seq<Expr>, method: RandomMethod, seed: u64) -> bool {
    &&& result matches Expr::Function { input: given, function }
    &&& given@ == input
    &&& function == (FunctionExpr::Random { method, seed: Some(seed) })
}

/// `result` shuffles `input` with the seed `seed`.
pub open spec fn is_shuffle(result: Expr, input: Expr, seed: u64) -> bool {
    is_random(result, seq![input], RandomMethod::Shuffle, seed)
}

/// `result` draws from `input` as many rows as `amount` says, with the seed
/// `seed`.
pub open spec fn is_sample(
    result: Expr,
    input: Expr,
    amount: Expr,
    is_fraction: bool,
    with_replacement: bool,
    shuffle: bool,
    seed: u64,
) -> bool {
    is_random(
        result,
        seq![input, amount],
        RandomMethod::Sample { is_fraction, with_replacement, shuffle },
        seed,
    )
}

/// The seed that an expression runs with: the one that the caller names, or
/// else `random`.
pub fn seed_or(seed: Option<u64>, random: u64) -> (chosen: u64)
    ensures
        chosen == match seed {
            Some(named) => named,
            None => random,
        },
{
    match seed {
        Some(named) => named,
        None => random,
    }
}

/// The seed that the caller names, or else the next number of the random
/// generator of the process.
fn resolve_seed(seed: Option<u64>) -> (chosen: u64)
    ensures
        seed matches Some(named) ==> chosen == named,
{
    match seed {
        Some(named) => named,
        None => seed_or(None, global_random_u64()),
    }
}

impl Expr {
    /// The function `function` of this expression alone.
    pub fn map_unary(self, function: FunctionExpr) -> (result: Expr)
        ensures
            result matches Expr::Function { input, function: applied } && input@ == seq![self]
                && applied == function,
    {
        let mut input: Vec<Expr> = Vec::new();
        input.push(self);
        Expr::Function { input, function }
    }

    /// The function `function` of this expression and `rhs`.
    pub fn map_binary(self, function: FunctionExpr, rhs: Expr) -> (result: Expr)
        ensures
            result matches Expr::Function { input, function: applied } && input@ == seq![self, rhs]
                && applied == function,
    {
        let mut input: Vec<Expr> = Vec::new();
        input.push(self);
        input.push(rhs);
        Expr::Function { input, function }
    }

    /// The rows of this expression in random order.
    ///
    /// The result carries `seed`, or a seed from the random generator of the
    /// process where the caller names none.
    pub fn shuffle(self, seed: Option<u64>) -> (result: Expr)
        ensures
            exists|chosen: u64| #[trigger]
                is_shuffle(result, self, chosen) && (seed matches Some(named) ==> chosen == named),
    {
        let chosen = resolve_seed(seed);
        let result = self.map_unary(
            FunctionExpr::Random { method: RandomMethod::Shuffle, seed: Some(chosen) },
        );
        proof {
            assert(is_shuffle(result, self, chosen));
        }
        result
    }

    /// `n` rows of this expression, drawn at random.
    ///
    /// The result carries `seed`, or a seed from the random generator of the
    /// process where the caller names none.
    pub fn sample_n(self, n: Expr, with_replacement: bool, shuffle: bool, seed: Option<u64>) -> (result:
        Expr)
        ensures
            exists|chosen: u64| #[trigger]
                is_sample(result, self, n, false, with_replacement, shuffle, chosen) && (
                seed matches Some(named) ==> chosen == named),
    {
        let chosen = resolve_seed(seed);
        let method = RandomMethod::Sample { is_fraction: false, with_replacement, shuffle };
        let result = self.map_binary(FunctionExpr::Random { method, seed: Some(chosen) }, n);
        proof {
            assert(is_sample(result, self, n, false, with_replacement, shuffle, chosen));
        }
        result
    }

    /// The fraction `frac` of the rows of this expression, drawn at random.
    ///
    /// The result carries `seed`, or a seed from the random generator of the
    /// process where the caller names none.
    pub fn sample_frac(
        self,
        frac: Expr,
        with_replacement: bool,
        shuffle: bool,
        seed: Option<u64>,
    ) -> (result: Expr)
        ensures
            exists|chosen: u64| #[trigger]
                is_sample(result, self, frac, true, with_replacement, shuffle, chosen) && (
                seed matches Some(named) ==> chosen == named),
    {
        let chosen = resolve_seed(seed);
        let method = RandomMethod::Sample { is_fraction: true, with_replacement, shuffle };
        let result = self.map_binary(FunctionExpr::Random { method, seed: Some(chosen) }, frac);
        proof {
            assert(is_sample(result, self, frac, true, with_replacement, shuffle, chosen));
        }
        result
    }
}

} // verus!
