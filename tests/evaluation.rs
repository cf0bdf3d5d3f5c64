use chalk::ast::{BinaryOperator, Expr, Parser};
use chalk::exec::{EvalResult, Evaluator, RealNumber, RuntimeError};
use chalk::tokenizer::{Decimal, Tokenizable};

/// Reals as `f32`.
#[derive(Debug, Clone, Copy, PartialEq)]
struct F(f32);

impl RealNumber for F {
    fn from_int(i: i32) -> Self {
        F(i as f32)
    }
    fn from_decimal(d: Decimal) -> Self {
        F(format!("{}e-{}", d.mantissa, d.scale).parse().unwrap())
    }
    fn duplicate(&self) -> Self {
        *self
    }
    fn add(&self, o: &Self) -> Self {
        F(self.0 + o.0)
    }
    fn sub(&self, o: &Self) -> Self {
        F(self.0 - o.0)
    }
    fn mul(&self, o: &Self) -> Self {
        F(self.0 * o.0)
    }
    fn div(&self, o: &Self) -> Self {
        F(self.0 / o.0)
    }
    fn pow(&self, o: &Self) -> Self {
        F(self.0.powf(o.0))
    }
    fn neg(&self) -> Self {
        F(-self.0)
    }
    fn abs(&self) -> Self {
        F(self.0.abs())
    }
    fn floor(&self) -> i32 {
        self.0.floor() as i32
    }
    fn ceil(&self) -> i32 {
        self.0.ceil() as i32
    }
    fn cos(&self) -> Self {
        F(self.0.cos())
    }
    fn sin(&self) -> Self {
        F(self.0.sin())
    }
    fn tan(&self) -> Self {
        F(self.0.tan())
    }
    fn acos(&self) -> Self {
        F(self.0.acos())
    }
    fn asin(&self) -> Self {
        F(self.0.asin())
    }
    fn atan(&self) -> Self {
        F(self.0.atan())
    }
    fn gt(&self, o: &Self) -> bool {
        self.0 > o.0
    }
    fn lt(&self, o: &Self) -> bool {
        self.0 < o.0
    }
    fn ge(&self, o: &Self) -> bool {
        self.0 >= o.0
    }
    fn le(&self, o: &Self) -> bool {
        self.0 <= o.0
    }
    fn equals(&self, o: &Self) -> bool {
        self.0 == o.0
    }
    fn equals_int(&self, i: i32) -> bool {
        i as f32 == self.0
    }
    fn to_int(&self) -> Option<i32> {
        if self.0.round() == self.0 {
            Some(self.0 as i32)
        } else {
            None
        }
    }
    fn to_uint(&self) -> Option<u32> {
        if self.0.round() == self.0 && self.0 >= 0.0 {
            Some(self.0 as u32)
        } else {
            None
        }
    }
    fn to_text(&self) -> String {
        format!("{}", self.0)
    }
}

fn run(executor: &mut Evaluator, text: &str) -> Result<EvalResult<F>, RuntimeError> {
    let tokens = text.tokenize().expect("Tokenize stream");
    let mut parser = Parser::new(tokens);
    let ast = parser.parse().expect("Failed to parse");
    executor.exec::<F>(&ast)
}

fn check(text: &str, expected: EvalResult<F>) {
    let mut executor = Evaluator::default();
    let result = run(&mut executor, text).expect("Eval");
    assert!(result.equals(&expected), "{text}: {result:?} is not {expected:?}");
}

/// Tokenize, parse and evaluate, as text; `???` on any error.
fn eval_text(executor: &mut Evaluator, text: &str) -> String {
    let tokens = match text.tokenize() {
        Ok(t) => t,
        Err(_) => return "???".to_string(),
    };
    let ast = match Parser::new(tokens).parse() {
        Ok(a) => a,
        Err(_) => return "???".to_string(),
    };
    match executor.exec::<F>(&ast) {
        Ok(r) => r.to_string(),
        Err(_) => "???".to_string(),
    }
}

#[test]
fn evaluating_ast() {
    let test = Expr::Paren(Box::new(Expr::BinaryOp {
        op: BinaryOperator::Add,
        left: Box::new(Expr::Integer(1)),
        right: Box::new(Expr::Real(Decimal { mantissa: 25, scale: 1 })),
    }));
    let mut executor = Evaluator::default();

    let result = executor.exec::<F>(&test).expect("Eval");
    assert!(result.equals(&EvalResult::Float(F(3.5))), "{result:?}")
}

#[test]
fn full_run_through() {
    check("1 + 1 - (2 * 4)", EvalResult::Float(F(-6.0)));
}

#[test]
fn negation_operator() {
    check("-(1 + 1 - (2 * 4))", EvalResult::Float(F(6.0)));
}

#[test]
fn negation_operator_more() {
    check("-1 - -1", EvalResult::Float(F(0.0)));
}

#[test]
fn absolute_value() {
    check("|1 + 1 - (2 * 4)|", EvalResult::Float(F(6.0)));
}

#[test]
fn exponentiation_simple() {
    check("3 ^ 2", EvalResult::Float(F(9.0)));
}

#[test]
fn exponentiation_crazy() {
    check("((1 + 1 + 1) ^ (6 / 3 ^ 1)) ^ 2", EvalResult::Float(F(81.0)));
}

#[test]
fn factorial_of_factor() {
    check("(4 ^ 0.5 + 3)!", EvalResult::Integer(120));
}

#[test]
fn nested_factorial() {
    check("3!!", EvalResult::Integer(720));
}

#[test]
fn factorial() {
    check("5!", EvalResult::Integer(120));
}

#[test]
fn gcd() {
    check("gcd(15, 20)", EvalResult::Integer(5));
}

#[test]
fn lcm() {
    check("lcm(12, 15)", EvalResult::Integer(60));
}

#[test]
fn floor() {
    check("floor(2 - 0.0001)", EvalResult::Integer(1));
}

#[test]
fn ceil() {
    check("ceil(1.1)", EvalResult::Integer(2));
}

#[test]
fn equality() {
    check("(1 + 1 - 2*3 + 5!) * 0 + 9 == 9", EvalResult::Bool(true));
}

#[test]
fn inequality() {
    check("(1 + 1 - 2*3 + 5!) * 0 + 9 != 9 - 10", EvalResult::Bool(true));
}

#[test]
fn lt() {
    check("3 * 3! * 0 <= 2 + 7", EvalResult::Bool(true));
}

#[test]
fn gt() {
    check("3 * 3! >= 2 + 7", EvalResult::Bool(true));
}

#[test]
fn and() {
    check("(3^3 + 5!) >= 1 && 2 + 2 == 4", EvalResult::Bool(true));
}

#[test]
fn or() {
    check("0 == 1 || (5! - 120 == 0 && 2^10 == 1024)", EvalResult::Bool(true));
}

#[test]
fn assign() {
    let mut executor = Evaluator::default();
    run(&mut executor, "x = 100").expect("Eval");

    let result = run(&mut executor, "x").expect("Eval");
    assert!(result.equals(&EvalResult::Integer(100)), "{result:?}");
}

#[test]
fn complex_dependency() {
    let tokens = "y = 3*x + 5".tokenize().expect("Tokenize stream");
    let mut parser = Parser::new(tokens);
    let ast = parser.parse().expect("Failed to parse");

    let mut eval = Evaluator::default();
    eval.bind('x', Expr::Integer(0));
    eval.exec::<F>(&ast).expect("Eval");

    let tokens = "cos(y)".tokenize().expect("Tokenize stream");
    let mut parser = Parser::new(tokens);
    let ast = parser.parse().expect("Failed to parse");

    assert!(eval.depends_on(&ast, 'x'));
    assert!(!eval.depends_on(&ast, 'f'));
}

#[test]
fn depends_on() {
    let tokens = "15 + (30 / 100*x)".tokenize().expect("Tokenize stream");
    let mut parser = Parser::new(tokens);
    let ast = parser.parse().expect("Failed to parse");

    let eval = Evaluator::default();

    assert!(eval.depends_on(&ast, 'x'));
    assert!(!eval.depends_on(&ast, 'f'));
}

#[test]
fn unsuccessful() {
    let mut executor = Evaluator::default();
    assert_eq!(eval_text(&mut executor, "1 + 1 !== 2"), "???".to_string())
}

#[test]
fn successful() {
    let mut executor = Evaluator::default();
    assert_eq!(eval_text(&mut executor, "1 + 1 == 2"), "true".to_string())
}

#[test]
fn chained() {
    let mut executor = Evaluator::default();
    assert_eq!(eval_text(&mut executor, "x = 4"), "4".to_string());
    assert_eq!(eval_text(&mut executor, "x + 4"), "8".to_string());
}

#[test]
fn precedence_worked_example() {
    check("(1 + 2) * 3 - 4 / 2", EvalResult::Float(F(7.0)));
}

#[test]
fn power_is_left_associative() {
    check("2^3^2", EvalResult::Float(F(64.0)));
    let mut executor = Evaluator::default();
    let result = run(&mut executor, "2^3^2").unwrap();
    assert!(!result.equals(&EvalResult::Float(F(512.0))));
}

#[test]
fn late_binding_follows_reassignment() {
    let mut executor = Evaluator::default();
    assert_eq!(eval_text(&mut executor, "x = 4"), "4");
    assert_eq!(eval_text(&mut executor, "y = x + 4"), "8");
    assert_eq!(eval_text(&mut executor, "x = 10"), "10");
    assert_eq!(eval_text(&mut executor, "y"), "14");
}

#[test]
fn logical_and_of_numbers_fails() {
    let mut executor = Evaluator::default();
    assert_eq!(run(&mut executor, "5 && 1").unwrap_err(), RuntimeError);
    assert_eq!(run(&mut executor, "true || 0").unwrap_err(), RuntimeError);
}

#[test]
fn no_short_circuit() {
    let mut executor = Evaluator::default();
    assert!(run(&mut executor, "false && (true + 1 == 2)").is_err());
}

#[test]
fn runtime_errors() {
    let mut executor = Evaluator::default();
    assert!(run(&mut executor, "z + 1").is_err());
    assert!(run(&mut executor, "(0 - 1)!").is_err());
    assert!(run(&mut executor, "13!").is_err());
    assert!(run(&mut executor, "gcd(0, 5)").is_err());
    assert!(run(&mut executor, "lcm(1.5, 2)").is_err());
    assert!(run(&mut executor, "|true|").is_err());
    assert!(run(&mut executor, "lcm(65536, 65537)").is_err());
    check("12!", EvalResult::Integer(479001600));
}

#[test]
fn cyclic_bindings_fail() {
    let mut executor = Evaluator::default();
    assert_eq!(eval_text(&mut executor, "x = 1"), "1");
    assert_eq!(eval_text(&mut executor, "x = x + 1"), "2");
    assert!(run(&mut executor, "x").is_err());
    assert!(executor.depends_on(&Expr::Variable('x'), 'x'));
    assert!(!executor.depends_on(&Expr::Variable('x'), 'q'));
}

#[test]
fn failed_evaluation_keeps_bindings() {
    let mut executor = Evaluator::default();
    let ast = Expr::BinaryOp {
        op: BinaryOperator::Add,
        left: Box::new(Expr::Assignment('k', Box::new(Expr::Integer(1)))),
        right: Box::new(Expr::Bool(true)),
    };
    assert!(executor.exec::<F>(&ast).is_err());
    assert!(run(&mut executor, "k").is_err());
}

#[test]
fn equality_across_kinds() {
    check("1 == 1.0", EvalResult::Bool(true));
    check("true == 1", EvalResult::Bool(false));
    check("true != false", EvalResult::Bool(true));
    let r: EvalResult<F> = EvalResult::Integer(2);
    assert!(r.equals(&EvalResult::Float(F(2.0))));
    assert!(!r.equals(&EvalResult::Bool(true)));
}

#[test]
fn result_conversions() {
    let int: EvalResult<F> = EvalResult::Float(F(3.0));
    assert_eq!(int.integer(), Ok(3));
    assert_eq!(int.uint(), Ok(3));
    let frac: EvalResult<F> = EvalResult::Float(F(3.5));
    assert!(frac.integer().is_err());
    let neg: EvalResult<F> = EvalResult::Integer(-2);
    assert!(neg.uint().is_err());
    assert_eq!(neg.float().unwrap(), F(-2.0));
    let b: EvalResult<F> = EvalResult::Bool(true);
    assert_eq!(b.bool(), Ok(true));
    assert!(b.float().is_err());
    assert_eq!(b.to_string(), "true");
    assert_eq!(neg.to_string(), "-2");
    assert_eq!(RuntimeError.to_string(), "Runtime error occurred :( your types are probably not good");
}

#[test]
fn trigonometry() {
    check("cos(0)", EvalResult::Float(F(1.0)));
    check("sin(0) + tan(0) + asin(0) + atan(0)", EvalResult::Float(F(0.0)));
    check("acos(1)", EvalResult::Float(F(0.0)));
}
