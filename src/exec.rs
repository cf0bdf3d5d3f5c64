//! AST execution: a tree-walking evaluator over a table of late-bound variables.
use crate::ast::{BinaryOperator, Expr, UnaryOperator};
use crate::display::{int_text, write_int_text};
use crate::math::gcd::{gcd, gcd_value, lcm_value};
use crate::math::lcm::lcm_wide;
use crate::tokenizer::Decimal;
use std::collections::HashMap;
use vstd::prelude::*;
use vstd::std_specs::hash::group_hash_axioms;
use vstd::string::StringExecFns;

verus! {

broadcast use group_hash_axioms;

/// How many variable lookups may nest while one expression is evaluated.
pub const MAX_BINDING_DEPTH: usize = 256;

/// A runtime type error
#[derive(Debug, Clone, Copy, PartialEq, Eq)]
pub struct RuntimeError;

impl RuntimeError {
    /// The message that describes the error.
    pub fn to_string(&self) -> String {
        String::from_str("Runtime error occurred :( your types are probably not good")
    }
}

/// The real numbers that evaluation computes with, and the operations on them
/// that the operators need.
pub trait RealNumber: Sized {
    /// The real nearest to an integer
    fn from_int(i: i32) -> Self;
    /// The real nearest to a decimal
    fn from_decimal(d: Decimal) -> Self;
    /// A copy
    fn duplicate(&self) -> Self;
    /// Sum
    fn add(&self, o: &Self) -> Self;
    /// Difference
    fn sub(&self, o: &Self) -> Self;
    /// Product
    fn mul(&self, o: &Self) -> Self;
    /// Quotient (division by zero as the number type defines it)
    fn div(&self, o: &Self) -> Self;
    /// `self` raised to the power `o`
    fn pow(&self, o: &Self) -> Self;
    /// Negation
    fn neg(&self) -> Self;
    /// Absolute value
    fn abs(&self) -> Self;
    /// Largest integer no greater than the number, saturated to `i32`
    fn floor(&self) -> i32;
    /// Smallest integer no smaller than the number, saturated to `i32`
    fn ceil(&self) -> i32;
    /// Cosine
    fn cos(&self) -> Self;
    /// Sine
    fn sin(&self) -> Self;
    /// Tangent
    fn tan(&self) -> Self;
    /// Arc cosine
    fn acos(&self) -> Self;
    /// Arc sine
    fn asin(&self) -> Self;
    /// Arc tangent
    fn atan(&self) -> Self;
    /// `self > o`
    fn gt(&self, o: &Self) -> bool;
    /// `self < o`
    fn lt(&self, o: &Self) -> bool;
    /// `self >= o`
    fn ge(&self, o: &Self) -> bool;
    /// `self <= o`
    fn le(&self, o: &Self) -> bool;
    /// Numeric equality
    fn equals(&self, o: &Self) -> bool;
    /// Numeric equality with an integer
    fn equals_int(&self, i: i32) -> bool;
    /// The number as an `i32` when it has no fractional part
    fn to_int(&self) -> Option<i32>;
    /// The number as a `u32` when it has no fractional part and is not negative
    fn to_uint(&self) -> Option<u32>;
    /// The number as text
    fn to_text(&self) -> String;
}

/// All results an AST may have
#[derive(Debug)]
pub enum EvalResult<R> {
    /// An integer
    Integer(i32),
    /// A float
    Float(R),
    /// A bool
    Bool(bool),
}

/// What is known of a result without the real arithmetic: its value when it is
/// an integer or a boolean, its kind when it is a real, or that evaluation failed.
pub enum Outcome {
    /// An integer
    Int(i32),
    /// A boolean
    Truth(bool),
    /// Some real number
    Real,
    /// A runtime error
    Failed,
}

/// The outcome a value has.
pub open spec fn shape<R>(v: EvalResult<R>) -> Outcome {
    match v {
        EvalResult::Integer(i) => Outcome::Int(i),
        EvalResult::Float(_) => Outcome::Real,
        EvalResult::Bool(b) => Outcome::Truth(b),
    }
}

/// `r` is what the outcome `o` says.
pub open spec fn meets<R>(r: Result<EvalResult<R>, RuntimeError>, o: Outcome) -> bool {
    match o {
        Outcome::Failed => r is Err,
        _ => r is Ok && shape(r->Ok_0) == o,
    }
}

/// `n!`.
pub open spec fn factorial(n: nat) -> nat
    decreases n,
{
    if n == 0 {
        1
    } else {
        n * factorial((n - 1) as nat)
    }
}

/// The outcome of a unary operator on an operand of outcome `o` (not failed);
/// none where it hinges on real arithmetic.
pub open spec fn unary_outcome(op: UnaryOperator, o: Outcome) -> Option<Outcome> {
    match op {
        UnaryOperator::Factorial => match o {
            Outcome::Int(i) => if i < 0 || i > 12 {
                Some(Outcome::Failed)
            } else {
                Some(Outcome::Int(factorial(i as nat) as i32))
            },
            Outcome::Real => None,
            _ => Some(Outcome::Failed),
        },
        UnaryOperator::Floor | UnaryOperator::Ceil => match o {
            Outcome::Truth(_) | Outcome::Failed => Some(Outcome::Failed),
            _ => None,
        },
        _ => match o {
            Outcome::Truth(_) | Outcome::Failed => Some(Outcome::Failed),
            _ => Some(Outcome::Real),
        },
    }
}

/// Whether coercing an operand of outcome `o` to a non-negative integer fails
/// whatever the reals are.
pub open spec fn uint_fails(o: Outcome) -> bool {
    match o {
        Outcome::Int(i) => i < 0,
        Outcome::Real => false,
        _ => true,
    }
}

/// The outcome of a binary operator on operands of outcomes `a` and `b` (not
/// failed); none where it hinges on real arithmetic.
pub open spec fn binary_outcome(op: BinaryOperator, a: Outcome, b: Outcome) -> Option<Outcome> {
    match op {
        BinaryOperator::Gcd | BinaryOperator::Lcm => if uint_fails(a) || uint_fails(b) {
            Some(Outcome::Failed)
        } else {
            match (a, b) {
                (Outcome::Int(x), Outcome::Int(y)) => if x == 0 || y == 0 {
                    Some(Outcome::Failed)
                } else if op is Gcd {
                    Some(Outcome::Int(gcd_value(x as int, y as int) as i32))
                } else if lcm_value(x as int, y as int) <= i32::MAX {
                    Some(Outcome::Int(lcm_value(x as int, y as int) as i32))
                } else {
                    Some(Outcome::Failed)
                },
                _ => None,
            }
        },
        BinaryOperator::Eq | BinaryOperator::NEq => {
            let same = match (a, b) {
                (Outcome::Int(x), Outcome::Int(y)) => Some(x == y),
                (Outcome::Truth(x), Outcome::Truth(y)) => Some(x == y),
                (Outcome::Truth(_), _) => Some(false),
                (_, Outcome::Truth(_)) => Some(false),
                _ => None,
            };
            match same {
                Some(s) => Some(Outcome::Truth(if op is Eq { s } else { !s })),
                None => None,
            }
        },
        BinaryOperator::And | BinaryOperator::Or => match (a, b) {
            (Outcome::Truth(x), Outcome::Truth(y)) => Some(Outcome::Truth(if op is And { x && y } else { x || y })),
            _ => Some(Outcome::Failed),
        },
        BinaryOperator::Gt | BinaryOperator::Lt | BinaryOperator::Gte | BinaryOperator::Lte => if a is Truth || b is Truth {
            Some(Outcome::Failed)
        } else {
            None
        },
        _ => if a is Truth || b is Truth {
            Some(Outcome::Failed)
        } else {
            Some(Outcome::Real)
        },
    }
}

/// Evaluation of `e` under the bindings `ctx`, with `path` the variables being
/// looked up around it and `depth` the lookups that may still nest: the
/// bindings after it and its outcome; none where the outcome hinges on real
/// arithmetic. A variable looked up inside its own lookup, an unbound one, or
/// one past the depth fails; an assignment binds the unevaluated expression
/// once it has evaluated without failing.
pub open spec fn eval(ctx: Map<u32, Expr>, e: Expr, path: Seq<u32>, depth: nat) -> Option<(Map<u32, Expr>, Outcome)>
    decreases depth, e,
{
    match e {
        Expr::Integer(i) => Some((ctx, Outcome::Int(i))),
        Expr::Bool(b) => Some((ctx, Outcome::Truth(b))),
        Expr::Real(_) => Some((ctx, Outcome::Real)),
        Expr::Paren(inner) => eval(ctx, *inner, path, depth),
        Expr::AbsVal(inner) => match eval(ctx, *inner, path, depth) {
            Some((c, o)) => Some((c, match o {
                Outcome::Failed | Outcome::Truth(_) => Outcome::Failed,
                _ => Outcome::Real,
            })),
            None => None,
        },
        Expr::Variable(v) => if !ctx.contains_key(v as u32) || path.contains(v as u32) || depth == 0 {
            Some((ctx, Outcome::Failed))
        } else {
            eval(ctx, ctx[v as u32], path.push(v as u32), (depth - 1) as nat)
        },
        Expr::Assignment(v, node) => match eval(ctx, *node, path, depth) {
            Some((c, o)) => if o is Failed {
                Some((c, o))
            } else {
                Some((c.insert(v as u32, *node), o))
            },
            None => None,
        },
        Expr::UnaryOp { op, node } => match eval(ctx, *node, path, depth) {
            Some((c, o)) => if o is Failed {
                Some((c, o))
            } else {
                match unary_outcome(op, o) {
                    Some(o2) => Some((c, o2)),
                    None => None,
                }
            },
            None => None,
        },
        Expr::BinaryOp { op, left, right } => match eval(ctx, *left, path, depth) {
            Some((c1, o1)) => if o1 is Failed {
                Some((c1, o1))
            } else {
                match eval(c1, *right, path, depth) {
                    Some((c2, o2)) => if o2 is Failed {
                        Some((c2, o2))
                    } else {
                        match binary_outcome(op, o1, o2) {
                            Some(o) => Some((c2, o)),
                            None => None,
                        }
                    },
                    None => None,
                }
            },
            None => None,
        },
    }
}

/// Whether evaluating `e` under `ctx` reads the variable `dep`, directly or
/// through the bindings of the variables it reads; `path` are the variables
/// being followed around it, which are not followed again.
pub open spec fn reads(ctx: Map<u32, Expr>, e: Expr, dep: char, path: Seq<u32>, depth: nat) -> bool
    decreases depth, e,
{
    match e {
        Expr::Variable(v) => v == dep || (ctx.contains_key(v as u32) && !path.contains(v as u32) && depth > 0
            && reads(ctx, ctx[v as u32], dep, path.push(v as u32), (depth - 1) as nat)),
        Expr::Assignment(_, node) => reads(ctx, *node, dep, path, depth),
        Expr::UnaryOp { node, .. } => reads(ctx, *node, dep, path, depth),
        Expr::Paren(inner) => reads(ctx, *inner, dep, path, depth),
        Expr::AbsVal(inner) => reads(ctx, *inner, dep, path, depth),
        Expr::BinaryOp { left, right, .. } => reads(ctx, *left, dep, path, depth) || reads(ctx, *right, dep, path, depth),
        _ => false,
    }
}

/// Whether `path` holds `v`.
fn path_holds(path: &Vec<u32>, v: u32) -> (r: bool)
    ensures
        r == path@.contains(v),
{
    let mut i: usize = 0;
    while i < path.len()
        invariant
            i <= path@.len(),
            forall|k: int| 0 <= k < i ==> path@[k] != v,
        decreases path@.len() - i,
    {
        if path[i] == v {
            return true;
        }
        i += 1;
    }
    false
}

impl<R: RealNumber> EvalResult<R> {
    /// Gets the result assuming it to be an int, asserting it so through a runtime error
    pub fn integer(&self) -> (r: Result<i32, RuntimeError>)
        ensures
            match *self {
                EvalResult::Integer(i) => r == Ok::<i32, RuntimeError>(i),
                EvalResult::Bool(_) => r is Err,
                EvalResult::Float(_) => true,
            },
    {
        match self {
            EvalResult::Integer(i) => Ok(*i),
            EvalResult::Float(f) => match f.to_int() {
                Some(i) => Ok(i),
                None => Err(RuntimeError),
            },
            EvalResult::Bool(_) => Err(RuntimeError),
        }
    }

    /// Gets the result assuming it to be an unsigned int, asserting it so through a runtime error
    pub fn uint(&self) -> (r: Result<u32, RuntimeError>)
        ensures
            match *self {
                EvalResult::Integer(i) => if i >= 0 {
                    r == Ok::<u32, RuntimeError>(i as u32)
                } else {
                    r is Err
                },
                EvalResult::Bool(_) => r is Err,
                EvalResult::Float(_) => true,
            },
    {
        match self {
            EvalResult::Integer(i) => if *i >= 0 {
                Ok(*i as u32)
            } else {
                Err(RuntimeError)
            },
            EvalResult::Float(f) => match f.to_uint() {
                Some(u) => Ok(u),
                None => Err(RuntimeError),
            },
            EvalResult::Bool(_) => Err(RuntimeError),
        }
    }

    /// Gets the result assuming it to be a real, asserting it so through a runtime error
    pub fn float(&self) -> (r: Result<R, RuntimeError>)
        ensures
            r is Err == (*self is Bool),
    {
        match self {
            EvalResult::Float(f) => Ok(f.duplicate()),
            EvalResult::Integer(i) => Ok(R::from_int(*i)),
            EvalResult::Bool(_) => Err(RuntimeError),
        }
    }

    /// Gets the result assuming it to be a bool, asserting it so through a runtime error
    pub fn bool(&self) -> (r: Result<bool, RuntimeError>)
        ensures
            match *self {
                EvalResult::Bool(b) => r == Ok::<bool, RuntimeError>(b),
                _ => r is Err,
            },
    {
        match self {
            EvalResult::Bool(b) => Ok(*b),
            _ => Err(RuntimeError),
        }
    }

    /// Result equality: booleans equal when they match, numbers when they are
    /// numerically equal, a boolean never equal to a number.
    pub fn equals(&self, other: &Self) -> (r: bool)
        ensures
            match (*self, *other) {
                (EvalResult::Integer(a), EvalResult::Integer(b)) => r == (a == b),
                (EvalResult::Bool(a), EvalResult::Bool(b)) => r == (a == b),
                (EvalResult::Bool(_), _) => !r,
                (_, EvalResult::Bool(_)) => !r,
                _ => true,
            },
    {
        match (self, other) {
            (EvalResult::Integer(a), EvalResult::Integer(b)) => *a == *b,
            (EvalResult::Integer(a), EvalResult::Float(b)) => b.equals_int(*a),
            (EvalResult::Float(a), EvalResult::Integer(b)) => a.equals_int(*b),
            (EvalResult::Float(a), EvalResult::Float(b)) => a.equals(b),
            (EvalResult::Bool(a), EvalResult::Bool(b)) => *a == *b,
            _ => false,
        }
    }

    /// The result as text: `true` or `false`, an integer in decimal, or the real's own text.
    pub fn to_string(&self) -> (r: String)
        ensures
            match *self {
                EvalResult::Integer(i) => r@ == int_text(i as int),
                EvalResult::Bool(b) => r@ == (if b { "true"@ } else { "false"@ }),
                EvalResult::Float(_) => true,
            },
    {
        match self {
            EvalResult::Bool(b) => if *b {
                String::from_str("true")
            } else {
                String::from_str("false")
            },
            EvalResult::Integer(i) => write_int_text(*i),
            EvalResult::Float(f) => f.to_text(),
        }
    }
}

/// `n!` for `n <= 12`.
fn factorial_of(n: u32) -> (r: i32)
    requires
        n <= 12,
    ensures
        r as int == factorial(n as nat),
{
    let mut p: u32 = 1;
    let mut k: u32 = 1;
    proof {
        lemma_factorial_monotone(0, 12);
    }
    while k <= n
        invariant
            1 <= k <= n + 1,
            n <= 12,
            p as nat == factorial((k - 1) as nat),
            factorial((k - 1) as nat) <= factorial(12),
        decreases n + 1 - k,
    {
        proof {
            lemma_factorial_monotone(k as nat, 12);
            reveal_with_fuel(factorial, 13);
            assert(factorial(12) == 479001600);
        }
        p = p * k;
        k += 1;
    }
    proof {
        reveal_with_fuel(factorial, 13);
            assert(factorial(12) == 479001600);
    }
    p as i32
}

/// `a <= b` gives `1 <= a! <= b!`.
proof fn lemma_factorial_monotone(a: nat, b: nat)
    requires
        a <= b,
    ensures
        factorial(a) <= factorial(b),
        factorial(a) >= 1,
    decreases b,
{
    if b > 0 && a < b {
        lemma_factorial_monotone(a, (b - 1) as nat);
        assert(b * factorial((b - 1) as nat) >= factorial((b - 1) as nat)) by (nonlinear_arith)
            requires
                b >= 1,
        ;
    } else if b > 0 {
        lemma_factorial_monotone((b - 1) as nat, (b - 1) as nat);
        assert(b * factorial((b - 1) as nat) >= 1) by (nonlinear_arith)
            requires
                b >= 1,
                factorial((b - 1) as nat) >= 1,
        ;
    }
}

impl UnaryOperator {
    /// Evaluates a value with relation to the current operation: factorial
    /// takes a non-negative integer (up to 12, whose factorial still fits), the
    /// others a number.
    pub fn eval<R: RealNumber>(&self, expr: EvalResult<R>) -> (r: Result<EvalResult<R>, RuntimeError>)
        ensures
            match unary_outcome(*self, shape(expr)) {
                Some(o) => meets(r, o),
                None => true,
            },
    {
        match self {
            UnaryOperator::Neg => match expr.float() {
                Ok(f) => Ok(EvalResult::Float(f.neg())),
                Err(e) => Err(e),
            },
            UnaryOperator::Factorial => match expr.uint() {
                Ok(n) => if n > 12 {
                    Err(RuntimeError)
                } else {
                    let v = factorial_of(n);
                    assert(v == factorial(n as nat) as i32);
                    Ok(EvalResult::Integer(v))
                },
                Err(e) => Err(e),
            },
            UnaryOperator::Floor => match expr.float() {
                Ok(f) => Ok(EvalResult::Integer(f.floor())),
                Err(e) => Err(e),
            },
            UnaryOperator::Ceil => match expr.float() {
                Ok(f) => Ok(EvalResult::Integer(f.ceil())),
                Err(e) => Err(e),
            },
            UnaryOperator::Cos => match expr.float() {
                Ok(f) => Ok(EvalResult::Float(f.cos())),
                Err(e) => Err(e),
            },
            UnaryOperator::Sin => match expr.float() {
                Ok(f) => Ok(EvalResult::Float(f.sin())),
                Err(e) => Err(e),
            },
            UnaryOperator::Tan => match expr.float() {
                Ok(f) => Ok(EvalResult::Float(f.tan())),
                Err(e) => Err(e),
            },
            UnaryOperator::ACos => match expr.float() {
                Ok(f) => Ok(EvalResult::Float(f.acos())),
                Err(e) => Err(e),
            },
            UnaryOperator::ASin => match expr.float() {
                Ok(f) => Ok(EvalResult::Float(f.asin())),
                Err(e) => Err(e),
            },
            UnaryOperator::ATan => match expr.float() {
                Ok(f) => Ok(EvalResult::Float(f.atan())),
                Err(e) => Err(e),
            },
        }
    }
}

/// Both operands as reals.
fn reals<R: RealNumber>(left: &EvalResult<R>, right: &EvalResult<R>) -> (r: Result<(R, R), RuntimeError>)
    ensures
        r is Err == (*left is Bool || *right is Bool),
{
    match left.float() {
        Ok(a) => match right.float() {
            Ok(b) => Ok((a, b)),
            Err(e) => Err(e),
        },
        Err(e) => Err(e),
    }
}

impl BinaryOperator {
    /// Evaluates a left and right value with relation to the current operation:
    /// arithmetic and ordering take numbers, gcd and lcm positive integers
    /// (failing where the lcm does not fit an `i32`), `&&` and `||` booleans;
    /// `==` and `!=` compare any two results.
    pub fn eval<R: RealNumber>(&self, left: EvalResult<R>, right: EvalResult<R>) -> (r: Result<EvalResult<R>, RuntimeError>)
        ensures
            match binary_outcome(*self, shape(left), shape(right)) {
                Some(o) => meets(r, o),
                None => true,
            },
    {
        match self {
            BinaryOperator::Add => match reals(&left, &right) {
                Ok((a, b)) => Ok(EvalResult::Float(a.add(&b))),
                Err(e) => Err(e),
            },
            BinaryOperator::Subtract => match reals(&left, &right) {
                Ok((a, b)) => Ok(EvalResult::Float(a.sub(&b))),
                Err(e) => Err(e),
            },
            BinaryOperator::Multiply => match reals(&left, &right) {
                Ok((a, b)) => Ok(EvalResult::Float(a.mul(&b))),
                Err(e) => Err(e),
            },
            BinaryOperator::Divide => match reals(&left, &right) {
                Ok((a, b)) => Ok(EvalResult::Float(a.div(&b))),
                Err(e) => Err(e),
            },
            BinaryOperator::Pow => match reals(&left, &right) {
                Ok((a, b)) => Ok(EvalResult::Float(a.pow(&b))),
                Err(e) => Err(e),
            },
            BinaryOperator::Gcd | BinaryOperator::Lcm => {
                let a = match left.uint() {
                    Ok(a) => a,
                    Err(e) => return Err(e),
                };
                let b = match right.uint() {
                    Ok(b) => b,
                    Err(e) => return Err(e),
                };
                if a == 0 || b == 0 {
                    return Err(RuntimeError);
                }
                if matches!(self, BinaryOperator::Gcd) {
                    let g = gcd(a, b);
                    if g < 0 {
                        Err(RuntimeError)
                    } else {
                        Ok(EvalResult::Integer(g))
                    }
                } else {
                    let l = lcm_wide(a, b);
                    if l > 0x7fff_ffff {
                        Err(RuntimeError)
                    } else {
                        Ok(EvalResult::Integer(l as i32))
                    }
                }
            },
            BinaryOperator::Eq => Ok(EvalResult::Bool(left.equals(&right))),
            BinaryOperator::NEq => Ok(EvalResult::Bool(!left.equals(&right))),
            BinaryOperator::Gt => match reals(&left, &right) {
                Ok((a, b)) => Ok(EvalResult::Bool(a.gt(&b))),
                Err(e) => Err(e),
            },
            BinaryOperator::Gte => match reals(&left, &right) {
                Ok((a, b)) => Ok(EvalResult::Bool(a.ge(&b))),
                Err(e) => Err(e),
            },
            BinaryOperator::Lt => match reals(&left, &right) {
                Ok((a, b)) => Ok(EvalResult::Bool(a.lt(&b))),
                Err(e) => Err(e),
            },
            BinaryOperator::Lte => match reals(&left, &right) {
                Ok((a, b)) => Ok(EvalResult::Bool(a.le(&b))),
                Err(e) => Err(e),
            },
            BinaryOperator::And => match left.bool() {
                Ok(a) => match right.bool() {
                    Ok(b) => Ok(EvalResult::Bool(a && b)),
                    Err(e) => Err(e),
                },
                Err(e) => Err(e),
            },
            BinaryOperator::Or => match left.bool() {
                Ok(a) => match right.bool() {
                    Ok(b) => Ok(EvalResult::Bool(a || b)),
                    Err(e) => Err(e),
                },
                Err(e) => Err(e),
            },
        }
    }
}

/// Struct for executing ASTs: the variables' bindings, each to the expression
/// last assigned to it, keyed by the variable's code point.
#[derive(Debug)]
pub struct Evaluator {
    ctx: HashMap<u32, Expr>,
}

impl Evaluator {
    /// The bindings.
    pub closed spec fn bindings(&self) -> Map<u32, Expr> {
        self.ctx@
    }

    /// An evaluator with no bindings.
    pub fn new() -> (r: Self)
        ensures
            r.bindings() == Map::<u32, Expr>::empty(),
    {
        Evaluator { ctx: HashMap::new() }
    }

    /// Binds `var` to `expr` without evaluating it.
    pub fn bind(&mut self, var: char, expr: Expr)
        ensures
            final(self).bindings() == old(self).bindings().insert(var as u32, expr),
    {
        self.ctx.insert(var as u32, expr);
    }

    /// Checks if an AST depends on a variable: whether evaluating it reads
    /// `dep`, directly or through the bindings of the variables it reads.
    pub fn depends_on(&self, ast: &Expr, dep: char) -> (r: bool)
        ensures
            r == reads(self.bindings(), *ast, dep, Seq::empty(), MAX_BINDING_DEPTH as nat),
    {
        let mut path: Vec<u32> = Vec::new();
        self.reads_from(ast, dep, &mut path, MAX_BINDING_DEPTH)
    }

    fn reads_from(&self, ast: &Expr, dep: char, path: &mut Vec<u32>, depth: usize) -> (r: bool)
        ensures
            r == reads(self.ctx@, *ast, dep, old(path)@, depth as nat),
            final(path)@ == old(path)@,
        decreases depth, ast,
    {
        match ast {
            Expr::AbsVal(expr) => self.reads_from(expr, dep, path, depth),
            Expr::UnaryOp { op: _, node } => self.reads_from(node, dep, path, depth),
            Expr::Assignment(_, node) => self.reads_from(node, dep, path, depth),
            Expr::Paren(node) => self.reads_from(node, dep, path, depth),
            Expr::Variable(var) => {
                if *var == dep {
                    true
                } else {
                    let key = *var as u32;
                    if depth == 0 || path_holds(path, key) {
                        return false;
                    }
                    match self.ctx.get(&key) {
                        Some(sub_ast) => {
                            path.push(key);
                            let r = self.reads_from(sub_ast, dep, path, depth - 1);
                            path.pop();
                            proof {
                                assert(path@ =~= old(path)@);
                            }
                            r
                        },
                        None => false,
                    }
                }
            },
            Expr::BinaryOp { op: _, left, right } => {
                if self.reads_from(left, dep, path, depth) {
                    true
                } else {
                    self.reads_from(right, dep, path, depth)
                }
            },
            _ => false,
        }
    }

    /// Executes an AST: on success the bindings are those that its
    /// assignments left; on a runtime error they are as before.
    pub fn exec<R: RealNumber>(&mut self, ast: &Expr) -> (r: Result<EvalResult<R>, RuntimeError>)
        ensures
            r is Err ==> final(self).bindings() == old(self).bindings(),
            match eval(old(self).bindings(), *ast, Seq::empty(), MAX_BINDING_DEPTH as nat) {
                Some((c, o)) => meets(r, o) && (r is Ok ==> final(self).bindings() == c),
                None => true,
            },
    {
        let saved = self.ctx.clone();
        let mut path: Vec<u32> = Vec::new();
        let r = self.run(ast, &mut path, MAX_BINDING_DEPTH);
        if r.is_err() {
            self.ctx = saved;
        }
        r
    }

    fn run<R: RealNumber>(&mut self, ast: &Expr, path: &mut Vec<u32>, depth: usize) -> (r: Result<EvalResult<R>, RuntimeError>)
        ensures
            final(path)@ == old(path)@,
            match eval(old(self).ctx@, *ast, old(path)@, depth as nat) {
                Some((c, o)) => meets(r, o) && final(self).ctx@ == c,
                None => true,
            },
        decreases depth, ast,
    {
        match ast {
            Expr::Variable(v) => {
                let key = *v as u32;
                if depth == 0 || path_holds(path, key) {
                    return Err(RuntimeError);
                }
                let bound = match self.ctx.get(&key) {
                    Some(e) => e.duplicate(),
                    None => return Err(RuntimeError),
                };
                path.push(key);
                let r = self.run(&bound, path, depth - 1);
                path.pop();
                proof {
                    assert(path@ =~= old(path)@);
                }
                r
            },
            Expr::Assignment(v, node) => {
                let r = self.run(node, path, depth);
                if r.is_ok() {
                    self.ctx.insert(*v as u32, node.duplicate());
                }
                r
            },
            Expr::Real(n) => Ok(EvalResult::Float(R::from_decimal(*n))),
            Expr::Integer(i) => Ok(EvalResult::Integer(*i)),
            Expr::Bool(b) => Ok(EvalResult::Bool(*b)),
            Expr::Paren(inner) => self.run(inner, path, depth),
            Expr::BinaryOp { op, left, right } => {
                let left = match self.run(left, path, depth) {
                    Ok(v) => v,
                    Err(e) => return Err(e),
                };
                let right = match self.run(right, path, depth) {
                    Ok(v) => v,
                    Err(e) => return Err(e),
                };
                op.eval(left, right)
            },
            Expr::UnaryOp { op, node } => match self.run(node, path, depth) {
                Ok(v) => op.eval(v),
                Err(e) => Err(e),
            },
            Expr::AbsVal(expr) => match self.run::<R>(expr, path, depth) {
                Ok(v) => match v.float() {
                    Ok(f) => Ok(EvalResult::Float(f.abs())),
                    Err(e) => Err(e),
                },
                Err(e) => Err(e),
            },
        }
    }
}

impl Default for Evaluator {
    fn default() -> (r: Self)
        ensures
            r.bindings() == Map::<u32, Expr>::empty(),
    {
        Evaluator::new()
    }
}

} // verus!
