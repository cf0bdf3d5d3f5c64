//! Abstract syntax tree and the recursive-descent parser that builds it.
use crate::tokenizer::{same_text, Decimal, Token};
use vstd::prelude::*;
use vstd::string::StringExecFns;

verus! {

/// A node in the AST
#[derive(Debug, PartialEq)]
pub enum Expr {
    /// Assignment from a variable to an expr
    Assignment(char, Box<Expr>),
    /// A variable replacement
    Variable(char),
    /// Number leaf node (integer)
    Integer(i32),
    /// Number leaf node (real)
    Real(Decimal),
    /// Boolean leaf node
    Bool(bool),
    /// Binary operator node
    BinaryOp {
        /// The operation
        op: BinaryOperator,
        /// Left edge
        left: Box<Expr>,
        /// Right edge
        right: Box<Expr>,
    },
    /// Unary operator node
    UnaryOp {
        /// The operation
        op: UnaryOperator,
        /// affected expression
        node: Box<Expr>,
    },
    /// Parenthesis around an expr
    Paren(Box<Expr>),
    /// Absolute value of an expression
    AbsVal(Box<Expr>),
}

/// All unary operations
#[derive(Clone, Copy, Debug, PartialEq, Eq, Structural)]
pub enum UnaryOperator {
    /// Negation
    Neg,
    /// Factorial
    Factorial,
    /// Floor function
    Floor,
    /// Ceiling function
    Ceil,
    /// Tangent
    Tan,
    /// Cosine
    Cos,
    /// Sine
    Sin,
    /// ArcTangent
    ATan,
    /// ArcCosine
    ACos,
    /// ArcSine
    ASin,
}

/// All binary operations
#[derive(Clone, Copy, Debug, PartialEq, Eq, Structural)]
pub enum BinaryOperator {
    /// Adding
    Add,
    /// Subtracting
    Subtract,
    /// Multiplying
    Multiply,
    /// Dividing
    Divide,
    /// Exponentiation
    Pow,
    /// Greatest common divisor (will coerce to integers)
    Gcd,
    /// Least common multiple (will coerce to integers)
    Lcm,
    /// Equality
    Eq,
    /// Not equal
    NEq,
    /// Greater than
    Gt,
    /// Less than
    Lt,
    /// Greater than or equal
    Gte,
    /// Less than or equal
    Lte,
    /// And
    And,
    /// OR
    Or,
}

/// The lower-case form of `s`, as `str::to_lowercase` computes it.
pub uninterp spec fn lower_of(s: Seq<char>) -> Seq<char>;

/// Relies on `str::to_lowercase`: the lower-case form of the text, which
/// depends on the characters alone.
#[verifier::external_body]
fn lowercase(s: &str) -> (r: String)
    ensures
        r@ == lower_of(s@),
{
    s.to_lowercase()
}

/// The unary operator a lower-case name stands for.
pub open spec fn unary_named(name: Seq<char>) -> Option<UnaryOperator> {
    if name == "neg"@ {
        Some(UnaryOperator::Neg)
    } else if name == "factorial"@ {
        Some(UnaryOperator::Factorial)
    } else if name == "floor"@ {
        Some(UnaryOperator::Floor)
    } else if name == "ceil"@ {
        Some(UnaryOperator::Ceil)
    } else if name == "tan"@ {
        Some(UnaryOperator::Tan)
    } else if name == "cos"@ {
        Some(UnaryOperator::Cos)
    } else if name == "sin"@ {
        Some(UnaryOperator::Sin)
    } else if name == "atan"@ {
        Some(UnaryOperator::ATan)
    } else if name == "acos"@ {
        Some(UnaryOperator::ACos)
    } else if name == "asin"@ {
        Some(UnaryOperator::ASin)
    } else {
        None
    }
}

/// The binary operator a lower-case name stands for.
pub open spec fn binary_named(name: Seq<char>) -> Option<BinaryOperator> {
    if name == "add"@ {
        Some(BinaryOperator::Add)
    } else if name == "subtract"@ || name == "sub"@ {
        Some(BinaryOperator::Subtract)
    } else if name == "multiply"@ || name == "mul"@ {
        Some(BinaryOperator::Multiply)
    } else if name == "divide"@ || name == "div"@ {
        Some(BinaryOperator::Divide)
    } else if name == "pow"@ {
        Some(BinaryOperator::Pow)
    } else if name == "gcd"@ {
        Some(BinaryOperator::Gcd)
    } else if name == "lcm"@ {
        Some(BinaryOperator::Lcm)
    } else if name == "eq"@ {
        Some(BinaryOperator::Eq)
    } else if name == "neq"@ {
        Some(BinaryOperator::NEq)
    } else if name == "gt"@ {
        Some(BinaryOperator::Gt)
    } else if name == "lt"@ {
        Some(BinaryOperator::Lt)
    } else if name == "gte"@ {
        Some(BinaryOperator::Gte)
    } else if name == "lte"@ {
        Some(BinaryOperator::Lte)
    } else if name == "and"@ {
        Some(BinaryOperator::And)
    } else if name == "or"@ {
        Some(BinaryOperator::Or)
    } else {
        None
    }
}

impl UnaryOperator {
    /// The operator that a lower-case name stands for.
    pub fn from_lowercase_name(name: &str) -> (r: Option<UnaryOperator>)
        ensures
            r == unary_named(name@),
    {
        if same_text(name, "neg") {
            Some(UnaryOperator::Neg)
        } else if same_text(name, "factorial") {
            Some(UnaryOperator::Factorial)
        } else if same_text(name, "floor") {
            Some(UnaryOperator::Floor)
        } else if same_text(name, "ceil") {
            Some(UnaryOperator::Ceil)
        } else if same_text(name, "tan") {
            Some(UnaryOperator::Tan)
        } else if same_text(name, "cos") {
            Some(UnaryOperator::Cos)
        } else if same_text(name, "sin") {
            Some(UnaryOperator::Sin)
        } else if same_text(name, "atan") {
            Some(UnaryOperator::ATan)
        } else if same_text(name, "acos") {
            Some(UnaryOperator::ACos)
        } else if same_text(name, "asin") {
            Some(UnaryOperator::ASin)
        } else {
            None
        }
    }

    /// The operator that a name stands for, in any case.
    pub fn try_from(value: &str) -> (r: Result<UnaryOperator, ()>)
        ensures
            match unary_named(lower_of(value@)) {
                Some(op) => r == Ok::<UnaryOperator, ()>(op),
                None => r is Err,
            },
    {
        let lower = lowercase(value);
        match UnaryOperator::from_lowercase_name(lower.as_str()) {
            Some(op) => Ok(op),
            None => Err(()),
        }
    }
}

impl BinaryOperator {
    /// The operator that a lower-case name stands for.
    pub fn from_lowercase_name(name: &str) -> (r: Option<BinaryOperator>)
        ensures
            r == binary_named(name@),
    {
        if same_text(name, "add") {
            Some(BinaryOperator::Add)
        } else if same_text(name, "subtract") || same_text(name, "sub") {
            Some(BinaryOperator::Subtract)
        } else if same_text(name, "multiply") || same_text(name, "mul") {
            Some(BinaryOperator::Multiply)
        } else if same_text(name, "divide") || same_text(name, "div") {
            Some(BinaryOperator::Divide)
        } else if same_text(name, "pow") {
            Some(BinaryOperator::Pow)
        } else if same_text(name, "gcd") {
            Some(BinaryOperator::Gcd)
        } else if same_text(name, "lcm") {
            Some(BinaryOperator::Lcm)
        } else if same_text(name, "eq") {
            Some(BinaryOperator::Eq)
        } else if same_text(name, "neq") {
            Some(BinaryOperator::NEq)
        } else if same_text(name, "gt") {
            Some(BinaryOperator::Gt)
        } else if same_text(name, "lt") {
            Some(BinaryOperator::Lt)
        } else if same_text(name, "gte") {
            Some(BinaryOperator::Gte)
        } else if same_text(name, "lte") {
            Some(BinaryOperator::Lte)
        } else if same_text(name, "and") {
            Some(BinaryOperator::And)
        } else if same_text(name, "or") {
            Some(BinaryOperator::Or)
        } else {
            None
        }
    }

    /// The operator that a name stands for, in any case.
    pub fn try_from(value: &str) -> (r: Result<BinaryOperator, ()>)
        ensures
            match binary_named(lower_of(value@)) {
                Some(op) => r == Ok::<BinaryOperator, ()>(op),
                None => r is Err,
            },
    {
        let lower = lowercase(value);
        match BinaryOperator::from_lowercase_name(lower.as_str()) {
            Some(op) => Ok(op),
            None => Err(()),
        }
    }
}


/// The token at position `i`, the end-of-input token past either end.
pub open spec fn tok(t: Seq<Token>, i: int) -> Token {
    if 0 <= i < t.len() {
        t[i]
    } else {
        Token::EOF
    }
}

/// A binary node.
pub open spec fn bin(op: BinaryOperator, l: Expr, r: Expr) -> Expr {
    Expr::BinaryOp { op, left: Box::new(l), right: Box::new(r) }
}

/// The operator of `&&` and `||`.
pub open spec fn chained_op(t: Token) -> Option<BinaryOperator> {
    match t {
        Token::And => Some(BinaryOperator::And),
        Token::Or => Some(BinaryOperator::Or),
        _ => None,
    }
}

/// The operator of a comparison token.
pub open spec fn comparison_op(t: Token) -> Option<BinaryOperator> {
    match t {
        Token::Eq => Some(BinaryOperator::Eq),
        Token::NEq => Some(BinaryOperator::NEq),
        Token::Lt => Some(BinaryOperator::Lt),
        Token::Lte => Some(BinaryOperator::Lte),
        Token::Gt => Some(BinaryOperator::Gt),
        Token::Gte => Some(BinaryOperator::Gte),
        _ => None,
    }
}

/// The operator of `+` and `-`.
pub open spec fn additive_op(t: Token) -> Option<BinaryOperator> {
    match t {
        Token::Plus => Some(BinaryOperator::Add),
        Token::Minus => Some(BinaryOperator::Subtract),
        _ => None,
    }
}

/// `chained := comparison ((&& | ||) comparison)*`, from position `i`: the tree
/// and the position after it.
pub open spec fn parse_chained(t: Seq<Token>, i: int) -> Option<(Expr, int)>
    decreases t.len() - i, 11nat,
{
    if !(0 <= i <= t.len()) {
        None
    } else {
        match parse_comparison(t, i) {
            Some((e, j)) => if i <= j <= t.len() {
                chained_rest(t, e, j)
            } else {
                None
            },
            None => None,
        }
    }
}

/// The `((&& | ||) comparison)*` part, with `acc` parsed so far.
pub open spec fn chained_rest(t: Seq<Token>, acc: Expr, j: int) -> Option<(Expr, int)>
    decreases t.len() - j, 10nat,
{
    if !(0 <= j < t.len()) {
        Some((acc, j))
    } else {
        match chained_op(t[j]) {
            None => Some((acc, j)),
            Some(op) => match parse_comparison(t, j + 1) {
                Some((r, k)) => if j < k <= t.len() {
                    chained_rest(t, bin(op, acc, r), k)
                } else {
                    None
                },
                None => None,
            },
        }
    }
}

/// `comparison := expression ((== | != | > | < | >= | <=) expression)?`
pub open spec fn parse_comparison(t: Seq<Token>, i: int) -> Option<(Expr, int)>
    decreases t.len() - i, 9nat,
{
    if !(0 <= i <= t.len()) {
        None
    } else {
        match parse_expression(t, i) {
            Some((e, j)) => if i <= j < t.len() {
                match comparison_op(t[j]) {
                    None => Some((e, j)),
                    Some(op) => match parse_expression(t, j + 1) {
                        Some((r, k)) => if j < k <= t.len() {
                            Some((bin(op, e, r), k))
                        } else {
                            None
                        },
                        None => None,
                    },
                }
            } else if j == t.len() {
                Some((e, j))
            } else {
                None
            },
            None => None,
        }
    }
}

/// `expression := term ((+ | -) term)*`
pub open spec fn parse_expression(t: Seq<Token>, i: int) -> Option<(Expr, int)>
    decreases t.len() - i, 8nat,
{
    if !(0 <= i <= t.len()) {
        None
    } else {
        match parse_term(t, i) {
            Some((e, j)) => if i <= j <= t.len() {
                expression_rest(t, e, j)
            } else {
                None
            },
            None => None,
        }
    }
}

/// The `((+ | -) term)*` part, with `acc` parsed so far.
pub open spec fn expression_rest(t: Seq<Token>, acc: Expr, j: int) -> Option<(Expr, int)>
    decreases t.len() - j, 7nat,
{
    if !(0 <= j < t.len()) {
        Some((acc, j))
    } else {
        match additive_op(t[j]) {
            None => Some((acc, j)),
            Some(op) => match parse_term(t, j + 1) {
                Some((r, k)) => if j < k <= t.len() {
                    expression_rest(t, bin(op, acc, r), k)
                } else {
                    None
                },
                None => None,
            },
        }
    }
}

/// `term := power ((* | /) power | "(" chained ")")*`; the last form is an
/// implicit multiplication.
pub open spec fn parse_term(t: Seq<Token>, i: int) -> Option<(Expr, int)>
    decreases t.len() - i, 6nat,
{
    if !(0 <= i <= t.len()) {
        None
    } else {
        match parse_power(t, i) {
            Some((e, j)) => if i <= j <= t.len() {
                term_rest(t, e, j)
            } else {
                None
            },
            None => None,
        }
    }
}

/// The `((* | /) power | "(" chained ")")*` part, with `acc` parsed so far.
pub open spec fn term_rest(t: Seq<Token>, acc: Expr, j: int) -> Option<(Expr, int)>
    decreases t.len() - j, 5nat,
{
    if !(0 <= j < t.len()) {
        Some((acc, j))
    } else {
        match t[j] {
            Token::Divide => match parse_power(t, j + 1) {
                Some((r, k)) => if j < k <= t.len() {
                    term_rest(t, bin(BinaryOperator::Divide, acc, r), k)
                } else {
                    None
                },
                None => None,
            },
            Token::Multiply => match parse_power(t, j + 1) {
                Some((r, k)) => if j < k <= t.len() {
                    term_rest(t, bin(BinaryOperator::Multiply, acc, r), k)
                } else {
                    None
                },
                None => None,
            },
            Token::OpenParen => match parse_chained(t, j + 1) {
                Some((r, k)) => if j < k < t.len() && t[k] is CloseParen {
                    term_rest(t, bin(BinaryOperator::Multiply, acc, r), k + 1)
                } else {
                    None
                },
                None => None,
            },
            _ => Some((acc, j)),
        }
    }
}

/// `power := factorial (^ factorial)*`, grouping to the left.
pub open spec fn parse_power(t: Seq<Token>, i: int) -> Option<(Expr, int)>
    decreases t.len() - i, 4nat,
{
    if !(0 <= i <= t.len()) {
        None
    } else {
        match parse_factorial(t, i) {
            Some((e, j)) => if i <= j <= t.len() {
                power_rest(t, e, j)
            } else {
                None
            },
            None => None,
        }
    }
}

/// The `(^ factorial)*` part, with `acc` parsed so far.
pub open spec fn power_rest(t: Seq<Token>, acc: Expr, j: int) -> Option<(Expr, int)>
    decreases t.len() - j, 3nat,
{
    if !(0 <= j < t.len()) {
        Some((acc, j))
    } else if t[j] is Caret {
        match parse_factorial(t, j + 1) {
            Some((r, k)) => if j < k <= t.len() {
                power_rest(t, bin(BinaryOperator::Pow, acc, r), k)
            } else {
                None
            },
            None => None,
        }
    } else {
        Some((acc, j))
    }
}

/// `factorial := factor !*`
pub open spec fn parse_factorial(t: Seq<Token>, i: int) -> Option<(Expr, int)>
    decreases t.len() - i, 2nat,
{
    if !(0 <= i <= t.len()) {
        None
    } else {
        match parse_factor(t, i) {
            Some((e, j)) => if i <= j <= t.len() {
                factorial_rest(t, e, j)
            } else {
                None
            },
            None => None,
        }
    }
}

/// The `!*` part, with `acc` parsed so far.
pub open spec fn factorial_rest(t: Seq<Token>, acc: Expr, j: int) -> Option<(Expr, int)>
    decreases t.len() - j, 1nat,
{
    if !(0 <= j < t.len()) {
        Some((acc, j))
    } else if t[j] is Exclamation {
        factorial_rest(t, Expr::UnaryOp { op: UnaryOperator::Factorial, node: Box::new(acc) }, j + 1)
    } else {
        Some((acc, j))
    }
}

/// `factor := - factor | NUMBER | BOOL | VARIABLE | "(" chained ")" | "|" chained "|"
///           | BINARY "(" chained "," chained ")" | UNARY "(" chained ")"`
pub open spec fn parse_factor(t: Seq<Token>, i: int) -> Option<(Expr, int)>
    decreases t.len() - i, 0nat,
{
    if !(0 <= i < t.len()) {
        None
    } else {
        match t[i] {
            Token::Minus => match parse_factor(t, i + 1) {
                Some((e, j)) => Some((Expr::UnaryOp { op: UnaryOperator::Neg, node: Box::new(e) }, j)),
                None => None,
            },
            Token::Real(n) => Some((Expr::Real(n), i + 1)),
            Token::Integer(n) => Some((Expr::Integer(n), i + 1)),
            Token::Bool(b) => Some((Expr::Bool(b), i + 1)),
            Token::OpenParen => match parse_chained(t, i + 1) {
                Some((e, k)) => if i < k < t.len() && t[k] is CloseParen {
                    Some((Expr::Paren(Box::new(e)), k + 1))
                } else {
                    None
                },
                None => None,
            },
            Token::Bar => match parse_chained(t, i + 1) {
                Some((e, k)) => if i < k < t.len() && t[k] is Bar {
                    Some((Expr::AbsVal(Box::new(e)), k + 1))
                } else {
                    None
                },
                None => None,
            },
            Token::Variable(v) => Some((Expr::Variable(v), i + 1)),
            Token::Ident(name) => match binary_named(lower_of(name@)) {
                Some(op) => if tok(t, i + 1) is OpenParen {
                    match parse_chained(t, i + 2) {
                        Some((l, k)) => if i < k < t.len() && t[k] is Comma {
                            match parse_chained(t, k + 1) {
                                Some((r, m)) => if k < m < t.len() && t[m] is CloseParen {
                                    Some((bin(op, l, r), m + 1))
                                } else {
                                    None
                                },
                                None => None,
                            }
                        } else {
                            None
                        },
                        None => None,
                    }
                } else {
                    None
                },
                None => match unary_named(lower_of(name@)) {
                    Some(op) => if tok(t, i + 1) is OpenParen {
                        match parse_chained(t, i + 2) {
                            Some((e, k)) => if i < k < t.len() && t[k] is CloseParen {
                                Some((Expr::UnaryOp { op, node: Box::new(e) }, k + 1))
                            } else {
                                None
                            },
                            None => None,
                        }
                    } else {
                        None
                    },
                    None => None,
                },
            },
            _ => None,
        }
    }
}

/// `assignment := VARIABLE = chained | chained`, from the start.
pub open spec fn parse_assignment(t: Seq<Token>) -> Option<(Expr, int)> {
    match (tok(t, 0), tok(t, 1)) {
        (Token::Variable(v), Token::Assign) => match parse_chained(t, 2) {
            Some((e, j)) => Some((Expr::Assignment(v, Box::new(e)), j)),
            None => None,
        },
        _ => parse_chained(t, 0),
    }
}

/// The tree that the whole token sequence parses to: an assignment followed
/// by the end-of-input token; none on a parse error.
pub open spec fn parse_tokens(t: Seq<Token>) -> Option<Expr> {
    match parse_assignment(t) {
        Some((e, j)) => if tok(t, j) is EOF {
            Some(e)
        } else {
            None
        },
        None => None,
    }
}

/// The token sequence a parser reads: the given one, closed by an
/// end-of-input token where it lacks one.
pub open spec fn closed_stream(t: Seq<Token>) -> Seq<Token> {
    if t.len() > 0 && t.last() is EOF {
        t
    } else {
        t.push(Token::EOF)
    }
}


impl Expr {
    /// A copy of the tree.
    pub fn duplicate(&self) -> (r: Expr)
        ensures
            r == *self,
        decreases self,
    {
        match self {
            Expr::Assignment(v, node) => Expr::Assignment(*v, Box::new(node.duplicate())),
            Expr::Variable(v) => Expr::Variable(*v),
            Expr::Integer(i) => Expr::Integer(*i),
            Expr::Real(d) => Expr::Real(*d),
            Expr::Bool(b) => Expr::Bool(*b),
            Expr::BinaryOp { op, left, right } => Expr::BinaryOp {
                op: *op,
                left: Box::new(left.duplicate()),
                right: Box::new(right.duplicate()),
            },
            Expr::UnaryOp { op, node } => Expr::UnaryOp { op: *op, node: Box::new(node.duplicate()) },
            Expr::Paren(inner) => Expr::Paren(Box::new(inner.duplicate())),
            Expr::AbsVal(inner) => Expr::AbsVal(Box::new(inner.duplicate())),
        }
    }
}

impl Clone for Expr {
    fn clone(&self) -> (r: Expr)
        ensures
            r == *self,
    {
        self.duplicate()
    }
}

/// Generic parser error
#[derive(Debug, Clone, Copy, PartialEq, Eq)]
pub struct ParseError;

impl ParseError {
    /// The message that describes the error.
    pub fn to_string(&self) -> String {
        String::from_str("Parse error occurred :(")
    }
}

/// A parser object for wrapping over a token span and keeping track of index during parsing
#[derive(Debug)]
pub struct Parser {
    /// All tokens in the stream
    tokens: Vec<Token>,
    /// The current index
    current: usize,
}

/// A token without payload that the parser expects to find.
pub open spec fn is_punct(p: Token) -> bool {
    p is CloseParen || p is Bar || p is Comma || p is OpenParen || p is EOF
}

/// Whether `t` is the payload-free token `p`.
fn same_punct(t: &Token, p: &Token) -> (r: bool)
    requires
        is_punct(*p),
    ensures
        r == (*t == *p),
{
    match p {
        Token::CloseParen => matches!(t, Token::CloseParen),
        Token::Bar => matches!(t, Token::Bar),
        Token::Comma => matches!(t, Token::Comma),
        Token::OpenParen => matches!(t, Token::OpenParen),
        _ => matches!(t, Token::EOF),
    }
}

impl Parser {
    /// The tokens read.
    pub closed spec fn stream(&self) -> Seq<Token> {
        self.tokens@
    }

    /// The position of the next token.
    pub closed spec fn position(&self) -> int {
        self.current as int
    }

    /// The stream ends with the end-of-input token and the position is in it.
    pub closed spec fn wf(&self) -> bool {
        &&& self.tokens@.len() > 0
        &&& self.tokens@.last() is EOF
        &&& self.current < self.tokens@.len()
    }

    /// Creates a new parser from a token span; an end-of-input token is added
    /// where the span lacks one at its end.
    pub fn new(tokens: Vec<Token>) -> (r: Self)
        ensures
            r.wf(),
            r.stream() == closed_stream(tokens@),
            r.position() == 0,
    {
        let mut tokens = tokens;
        let n = tokens.len();
        if n == 0 || !matches!(tokens[n - 1], Token::EOF) {
            tokens.push(Token::EOF);
        }
        Parser { tokens, current: 0 }
    }

    /// Consumes the next token under the assertion that it is the expected input token
    fn consume(&mut self, tok: &Token) -> (r: Result<(), ParseError>)
        requires
            old(self).wf(),
            is_punct(*tok),
        ensures
            final(self).wf(),
            final(self).tokens@ == old(self).tokens@,
            r is Ok == (old(self).tokens@[old(self).current as int] == *tok),
            r is Ok && !(tok is EOF) ==> final(self).current == old(self).current + 1,
            r is Err ==> final(self).current == old(self).current,
    {
        let n = self.tokens.len();
        if same_punct(&self.tokens[self.current], tok) {
            if self.current + 1 < n {
                self.current += 1;
            }
            Ok(())
        } else {
            Err(ParseError)
        }
    }

    /// An assignment is `variable = chained` | `chained`
    fn assignment(&mut self) -> (r: Result<Expr, ParseError>)
        requires
            old(self).wf(),
            old(self).current == 0,
        ensures
            final(self).wf(),
            final(self).tokens@ == old(self).tokens@,
            match parse_assignment(old(self).tokens@) {
                Some((e, j)) => r == Ok::<Expr, ParseError>(e) && final(self).current == j,
                None => r is Err,
            },
    {
        let n = self.tokens.len();
        if n >= 2 {
            if let Token::Variable(v) = self.tokens[0] {
                if matches!(self.tokens[1], Token::Assign) {
                    self.current = 2;
                    return match self.chained() {
                        Ok(e) => Ok(Expr::Assignment(v, Box::new(e))),
                        Err(err) => Err(err),
                    };
                }
            }
        }
        self.chained()
    }

    /// A chain is `comparison ( && | || comparison)`
    fn chained(&mut self) -> (r: Result<Expr, ParseError>)
        requires
            old(self).wf(),
        ensures
            final(self).wf(),
            final(self).tokens@ == old(self).tokens@,
            final(self).current >= old(self).current,
            match parse_chained(old(self).tokens@, old(self).current as int) {
                Some((e, j)) => r == Ok::<Expr, ParseError>(e) && final(self).current == j,
                None => r is Err,
            },
        decreases old(self).tokens@.len() - old(self).current, 11nat,
    {
        let ghost t = self.tokens@;
        let ghost i = self.current as int;
        let mut start = match self.comparison() {
            Ok(e) => e,
            Err(err) => return Err(err),
        };
        loop
            invariant
                self.wf(),
                self.tokens@ == t,
                t == old(self).tokens@,
                i == old(self).current as int,
                i <= self.current,
                parse_chained(t, i) == chained_rest(t, start, self.current as int),
            decreases t.len() - self.current,
        {
            let op = match self.tokens[self.current] {
                Token::And => BinaryOperator::And,
                Token::Or => BinaryOperator::Or,
                _ => return Ok(start),
            };
            let n = self.tokens.len();
            assert(self.current + 1 < n);
            self.current += 1;
            let right = match self.comparison() {
                Ok(e) => e,
                Err(err) => return Err(err),
            };
            start = Expr::BinaryOp { op, left: Box::new(start), right: Box::new(right) };
        }
    }

    /// A comparison is `expression (== | != | > | < | <= | >= expression)?`
    fn comparison(&mut self) -> (r: Result<Expr, ParseError>)
        requires
            old(self).wf(),
        ensures
            final(self).wf(),
            final(self).tokens@ == old(self).tokens@,
            final(self).current >= old(self).current,
            match parse_comparison(old(self).tokens@, old(self).current as int) {
                Some((e, j)) => r == Ok::<Expr, ParseError>(e) && final(self).current == j,
                None => r is Err,
            },
        decreases old(self).tokens@.len() - old(self).current, 9nat,
    {
        let start = match self.expression() {
            Ok(e) => e,
            Err(err) => return Err(err),
        };
        let op = match self.tokens[self.current] {
            Token::Eq => BinaryOperator::Eq,
            Token::NEq => BinaryOperator::NEq,
            Token::Lt => BinaryOperator::Lt,
            Token::Lte => BinaryOperator::Lte,
            Token::Gt => BinaryOperator::Gt,
            Token::Gte => BinaryOperator::Gte,
            _ => return Ok(start),
        };
        let n = self.tokens.len();
        assert(self.current + 1 < n);
        self.current += 1;
        let right = match self.expression() {
            Ok(e) => e,
            Err(err) => return Err(err),
        };
        Ok(Expr::BinaryOp { op, left: Box::new(start), right: Box::new(right) })
    }

    /// An expression is a `term ( + | - term)* `
    fn expression(&mut self) -> (r: Result<Expr, ParseError>)
        requires
            old(self).wf(),
        ensures
            final(self).wf(),
            final(self).tokens@ == old(self).tokens@,
            final(self).current >= old(self).current,
            match parse_expression(old(self).tokens@, old(self).current as int) {
                Some((e, j)) => r == Ok::<Expr, ParseError>(e) && final(self).current == j,
                None => r is Err,
            },
        decreases old(self).tokens@.len() - old(self).current, 8nat,
    {
        let ghost t = self.tokens@;
        let ghost i = self.current as int;
        let mut start = match self.term() {
            Ok(e) => e,
            Err(err) => return Err(err),
        };
        loop
            invariant
                self.wf(),
                self.tokens@ == t,
                t == old(self).tokens@,
                i == old(self).current as int,
                i <= self.current,
                parse_expression(t, i) == expression_rest(t, start, self.current as int),
            decreases t.len() - self.current,
        {
            let op = match self.tokens[self.current] {
                Token::Plus => BinaryOperator::Add,
                Token::Minus => BinaryOperator::Subtract,
                _ => return Ok(start),
            };
            let n = self.tokens.len();
            assert(self.current + 1 < n);
            self.current += 1;
            let right = match self.term() {
                Ok(e) => e,
                Err(err) => return Err(err),
            };
            start = Expr::BinaryOp { op, left: Box::new(start), right: Box::new(right) };
        }
    }

    /// A term is a `power ( * | / power)*`, or a power followed by a
    /// parenthesized chain, which multiplies
    fn term(&mut self) -> (r: Result<Expr, ParseError>)
        requires
            old(self).wf(),
        ensures
            final(self).wf(),
            final(self).tokens@ == old(self).tokens@,
            final(self).current >= old(self).current,
            match parse_term(old(self).tokens@, old(self).current as int) {
                Some((e, j)) => r == Ok::<Expr, ParseError>(e) && final(self).current == j,
                None => r is Err,
            },
        decreases old(self).tokens@.len() - old(self).current, 6nat,
    {
        let ghost t = self.tokens@;
        let ghost i = self.current as int;
        let mut start = match self.power() {
            Ok(e) => e,
            Err(err) => return Err(err),
        };
        loop
            invariant
                self.wf(),
                self.tokens@ == t,
                t == old(self).tokens@,
                i == old(self).current as int,
                i <= self.current,
                parse_term(t, i) == term_rest(t, start, self.current as int),
            decreases t.len() - self.current,
        {
            let mut paren_mul = false;
            let op = match self.tokens[self.current] {
                Token::Divide => BinaryOperator::Divide,
                Token::Multiply => BinaryOperator::Multiply,
                Token::OpenParen => {
                    paren_mul = true;
                    BinaryOperator::Multiply
                },
                _ => return Ok(start),
            };
            let n = self.tokens.len();
            assert(self.current + 1 < n);
            self.current += 1;
            let right = if paren_mul {
                let r = match self.chained() {
                    Ok(e) => e,
                    Err(err) => return Err(err),
                };
                match self.consume(&Token::CloseParen) {
                    Ok(()) => {},
                    Err(err) => return Err(err),
                }
                r
            } else {
                match self.power() {
                    Ok(e) => e,
                    Err(err) => return Err(err),
                }
            };
            start = Expr::BinaryOp { op, left: Box::new(start), right: Box::new(right) };
        }
    }

    /// A power is a `factorial (^ factorial)*`
    fn power(&mut self) -> (r: Result<Expr, ParseError>)
        requires
            old(self).wf(),
        ensures
            final(self).wf(),
            final(self).tokens@ == old(self).tokens@,
            final(self).current >= old(self).current,
            match parse_power(old(self).tokens@, old(self).current as int) {
                Some((e, j)) => r == Ok::<Expr, ParseError>(e) && final(self).current == j,
                None => r is Err,
            },
        decreases old(self).tokens@.len() - old(self).current, 4nat,
    {
        let ghost t = self.tokens@;
        let ghost i = self.current as int;
        let mut start = match self.factorial() {
            Ok(e) => e,
            Err(err) => return Err(err),
        };
        loop
            invariant
                self.wf(),
                self.tokens@ == t,
                t == old(self).tokens@,
                i == old(self).current as int,
                i <= self.current,
                parse_power(t, i) == power_rest(t, start, self.current as int),
            decreases t.len() - self.current,
        {
            if !matches!(self.tokens[self.current], Token::Caret) {
                return Ok(start);
            }
            let n = self.tokens.len();
            assert(self.current + 1 < n);
            self.current += 1;
            let exponent = match self.factorial() {
                Ok(e) => e,
                Err(err) => return Err(err),
            };
            start = Expr::BinaryOp { op: BinaryOperator::Pow, left: Box::new(start), right: Box::new(exponent) };
        }
    }

    /// A factorial is `factor (!)*`
    fn factorial(&mut self) -> (r: Result<Expr, ParseError>)
        requires
            old(self).wf(),
        ensures
            final(self).wf(),
            final(self).tokens@ == old(self).tokens@,
            final(self).current >= old(self).current,
            match parse_factorial(old(self).tokens@, old(self).current as int) {
                Some((e, j)) => r == Ok::<Expr, ParseError>(e) && final(self).current == j,
                None => r is Err,
            },
        decreases old(self).tokens@.len() - old(self).current, 2nat,
    {
        let ghost t = self.tokens@;
        let ghost i = self.current as int;
        let mut start = match self.factor() {
            Ok(e) => e,
            Err(err) => return Err(err),
        };
        loop
            invariant
                self.wf(),
                self.tokens@ == t,
                t == old(self).tokens@,
                i == old(self).current as int,
                i <= self.current,
                parse_factorial(t, i) == factorial_rest(t, start, self.current as int),
            decreases t.len() - self.current,
        {
            if !matches!(self.tokens[self.current], Token::Exclamation) {
                return Ok(start);
            }
            let n = self.tokens.len();
            assert(self.current + 1 < n);
            self.current += 1;
            start = Expr::UnaryOp { op: UnaryOperator::Factorial, node: Box::new(start) };
        }
    }

    /// A factor is a number, a boolean, a variable, `- factor`, `( chained )`,
    /// `| chained |`, or a named operator applied to its arguments
    fn factor(&mut self) -> (r: Result<Expr, ParseError>)
        requires
            old(self).wf(),
        ensures
            final(self).wf(),
            final(self).tokens@ == old(self).tokens@,
            final(self).current > old(self).current || r is Err,
            final(self).current >= old(self).current,
            match parse_factor(old(self).tokens@, old(self).current as int) {
                Some((e, j)) => r == Ok::<Expr, ParseError>(e) && final(self).current == j,
                None => r is Err,
            },
        decreases old(self).tokens@.len() - old(self).current, 0nat,
    {
        let k = self.current;
        let n = self.tokens.len();
        if matches!(self.tokens[k], Token::EOF) {
            return Err(ParseError);
        }
        assert(k + 1 < n);
        match &self.tokens[k] {
            Token::Minus => {
                self.current = k + 1;
                match self.factor() {
                    Ok(e) => Ok(Expr::UnaryOp { op: UnaryOperator::Neg, node: Box::new(e) }),
                    Err(err) => Err(err),
                }
            },
            Token::Real(n) => {
                let n = *n;
                self.current = k + 1;
                Ok(Expr::Real(n))
            },
            Token::Integer(n) => {
                let n = *n;
                self.current = k + 1;
                Ok(Expr::Integer(n))
            },
            Token::Bool(b) => {
                let b = *b;
                self.current = k + 1;
                Ok(Expr::Bool(b))
            },
            Token::OpenParen => {
                self.current = k + 1;
                let inner = match self.chained() {
                    Ok(e) => e,
                    Err(err) => return Err(err),
                };
                match self.consume(&Token::CloseParen) {
                    Ok(()) => Ok(Expr::Paren(Box::new(inner))),
                    Err(err) => Err(err),
                }
            },
            Token::Bar => {
                self.current = k + 1;
                let inner = match self.chained() {
                    Ok(e) => e,
                    Err(err) => return Err(err),
                };
                match self.consume(&Token::Bar) {
                    Ok(()) => Ok(Expr::AbsVal(Box::new(inner))),
                    Err(err) => Err(err),
                }
            },
            Token::Variable(v) => {
                let v = *v;
                self.current = k + 1;
                Ok(Expr::Variable(v))
            },
            Token::Ident(ident) => {
                let binary = BinaryOperator::try_from(ident.as_str());
                let unary = UnaryOperator::try_from(ident.as_str());
                self.current = k + 1;
                if let Ok(op) = binary {
                    match self.consume(&Token::OpenParen) {
                        Ok(()) => {},
                        Err(err) => return Err(err),
                    }
                    let l = match self.chained() {
                        Ok(e) => e,
                        Err(err) => return Err(err),
                    };
                    match self.consume(&Token::Comma) {
                        Ok(()) => {},
                        Err(err) => return Err(err),
                    }
                    let r = match self.chained() {
                        Ok(e) => e,
                        Err(err) => return Err(err),
                    };
                    match self.consume(&Token::CloseParen) {
                        Ok(()) => {},
                        Err(err) => return Err(err),
                    }
                    Ok(Expr::BinaryOp { op, left: Box::new(l), right: Box::new(r) })
                } else if let Ok(op) = unary {
                    match self.consume(&Token::OpenParen) {
                        Ok(()) => {},
                        Err(err) => return Err(err),
                    }
                    let node = match self.chained() {
                        Ok(e) => e,
                        Err(err) => return Err(err),
                    };
                    match self.consume(&Token::CloseParen) {
                        Ok(()) => {},
                        Err(err) => return Err(err),
                    }
                    Ok(Expr::UnaryOp { op, node: Box::new(node) })
                } else {
                    Err(ParseError)
                }
            },
            _ => Err(ParseError),
        }
    }

    /// Parses the current token span into an AST: an assignment or a chain,
    /// which the end-of-input token must follow.
    pub fn parse(&mut self) -> (r: Result<Expr, ParseError>)
        requires
            old(self).wf(),
            old(self).position() == 0,
        ensures
            final(self).wf(),
            match parse_tokens(old(self).stream()) {
                Some(e) => r == Ok::<Expr, ParseError>(e),
                None => r is Err,
            },
    {
        let expr = match self.assignment() {
            Ok(e) => e,
            Err(err) => return Err(err),
        };
        match self.consume(&Token::EOF) {
            Ok(()) => Ok(expr),
            Err(err) => Err(err),
        }
    }
}

/// Parses a token sequence into an AST.
pub fn parse(tokens: Vec<Token>) -> (r: Result<Expr, ParseError>)
    ensures
        match parse_tokens(closed_stream(tokens@)) {
            Some(e) => r == Ok::<Expr, ParseError>(e),
            None => r is Err,
        },
{
    let mut parser = Parser::new(tokens);
    parser.parse()
}

} // verus!
