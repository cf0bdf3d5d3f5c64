//! Rendering trees and operators as text.
use crate::ast::{BinaryOperator, Expr, UnaryOperator};
use crate::tokenizer::Decimal;
use vstd::prelude::*;
use vstd::string::{StrSliceExecFns, StringExecFns};

verus! {

/// Relies on `String::push`: appends the character at the end.
#[verifier::external_body]
fn push_char(s: &mut String, c: char)
    ensures
        final(s)@ == old(s)@.push(c),
{
    s.push(c);
}

/// The character of the decimal digit `d < 10`.
pub open spec fn digit_char(d: int) -> char {
    if d == 0 {
        '0'
    } else if d == 1 {
        '1'
    } else if d == 2 {
        '2'
    } else if d == 3 {
        '3'
    } else if d == 4 {
        '4'
    } else if d == 5 {
        '5'
    } else if d == 6 {
        '6'
    } else if d == 7 {
        '7'
    } else if d == 8 {
        '8'
    } else {
        '9'
    }
}

/// The decimal digits of `n`, most significant first.
pub open spec fn nat_text(n: nat) -> Seq<char>
    decreases n,
{
    if n < 10 {
        seq![digit_char(n as int)]
    } else {
        nat_text(n / 10).push(digit_char(n as int % 10))
    }
}

/// An integer in decimal, with a leading minus when negative.
pub open spec fn int_text(i: int) -> Seq<char> {
    if i < 0 {
        seq!['-'] + nat_text((-i) as nat)
    } else {
        nat_text(i as nat)
    }
}

/// `k` zeros.
pub open spec fn zeros(k: int) -> Seq<char> {
    Seq::new(if k > 0 { k as nat } else { 0 }, |i: int| '0')
}

/// A decimal as written: the digits of the mantissa, padded with zeros to more
/// than `scale` digits, with the point before the last `scale` of them.
pub open spec fn decimal_text(d: Decimal) -> Seq<char> {
    let ds = zeros(d.scale + 1 - nat_text(d.mantissa as nat).len()) + nat_text(d.mantissa as nat);
    let cut = ds.len() - d.scale;
    ds.subrange(0, cut) + seq!['.'] + ds.subrange(cut, ds.len() as int)
}

/// The character that stands for a binary operator.
pub open spec fn binary_symbol(op: BinaryOperator) -> char {
    match op {
        BinaryOperator::Add => '+',
        BinaryOperator::Subtract => '-',
        BinaryOperator::Multiply => '*',
        BinaryOperator::Divide => '/',
        BinaryOperator::Pow => '^',
        BinaryOperator::Gt => '>',
        BinaryOperator::Lt => '<',
        BinaryOperator::Lcm => 'l',
        BinaryOperator::Gcd => 'g',
        BinaryOperator::Eq => 'e',
        BinaryOperator::NEq => 'n',
        BinaryOperator::Gte => 'G',
        BinaryOperator::Lte => 'L',
        BinaryOperator::And => '&',
        BinaryOperator::Or => '|',
    }
}

/// The name a unary operator is written with as a function.
pub open spec fn unary_name(op: UnaryOperator) -> Seq<char> {
    match op {
        UnaryOperator::Floor => "floor"@,
        UnaryOperator::Ceil => "ceil"@,
        UnaryOperator::Cos => "cos"@,
        UnaryOperator::Sin => "sin"@,
        UnaryOperator::Tan => "tan"@,
        UnaryOperator::ACos => "acos"@,
        UnaryOperator::ASin => "asin"@,
        UnaryOperator::ATan => "atan"@,
        UnaryOperator::Neg => "neg"@,
        UnaryOperator::Factorial => "factorial"@,
    }
}

/// The text between the operands of an infix binary operator.
pub open spec fn infix_text(op: BinaryOperator) -> Seq<char> {
    match op {
        BinaryOperator::Eq => " == "@,
        BinaryOperator::NEq => " != "@,
        BinaryOperator::Gt => " > "@,
        BinaryOperator::Lt => " < "@,
        BinaryOperator::Gte => " >= "@,
        BinaryOperator::Lte => " <= "@,
        BinaryOperator::Or => " || "@,
        BinaryOperator::And => " && "@,
        _ => seq![' ', binary_symbol(op), ' '],
    }
}

/// The infix rendering of a tree.
pub open spec fn show(e: Expr) -> Seq<char>
    decreases e,
{
    match e {
        Expr::Variable(v) => seq![v],
        Expr::Assignment(v, node) => seq![v] + " = "@ + show(*node),
        Expr::Real(d) => decimal_text(d),
        Expr::Integer(i) => int_text(i as int),
        Expr::Bool(b) => if b { "true"@ } else { "false"@ },
        Expr::UnaryOp { op, node } => match op {
            UnaryOperator::Neg => seq!['-'] + show(*node),
            UnaryOperator::Factorial => show(*node).push('!'),
            _ => unary_name(op) + seq!['('] + show(*node) + seq![')'],
        },
        Expr::BinaryOp { op, left, right } => match op {
            BinaryOperator::Gcd => "gcd("@ + show(*left) + ", "@ + show(*right) + seq![')'],
            BinaryOperator::Lcm => "lcm("@ + show(*left) + ", "@ + show(*right) + seq![')'],
            _ => show(*left) + infix_text(op) + show(*right),
        },
        Expr::Paren(inner) => seq!['('] + show(*inner) + seq![')'],
        Expr::AbsVal(inner) => seq!['|'] + show(*inner) + seq!['|'],
    }
}

/// The character of the decimal digit `d`.
fn digit(d: u64) -> (c: char)
    requires
        d < 10,
    ensures
        c == digit_char(d as int),
{
    if d == 0 {
        '0'
    } else if d == 1 {
        '1'
    } else if d == 2 {
        '2'
    } else if d == 3 {
        '3'
    } else if d == 4 {
        '4'
    } else if d == 5 {
        '5'
    } else if d == 6 {
        '6'
    } else if d == 7 {
        '7'
    } else if d == 8 {
        '8'
    } else {
        '9'
    }
}

/// Appends the decimal digits of `n`.
fn write_nat(out: &mut String, n: u64)
    ensures
        final(out)@ == old(out)@ + nat_text(n as nat),
    decreases n,
{
    if n >= 10 {
        write_nat(out, n / 10);
    }
    push_char(out, digit(n % 10));
    assert(old(out)@ + nat_text(n as nat) =~= final(out)@) by {
        if n >= 10 {
            assert(nat_text(n as nat) == nat_text((n / 10) as nat).push(digit_char(n as int % 10)));
        }
    }
}

/// Appends an integer in decimal.
fn write_int(out: &mut String, i: i32)
    ensures
        final(out)@ == old(out)@ + int_text(i as int),
{
    if i < 0 {
        push_char(out, '-');
        let m = (-(i as i64)) as u64;
        write_nat(out, m);
        assert(final(out)@ =~= old(out)@ + int_text(i as int));
    } else {
        write_nat(out, i as u64);
    }
}

/// Appends a decimal as written.
fn write_decimal(out: &mut String, d: Decimal)
    ensures
        final(out)@ == old(out)@ + decimal_text(d),
{
    let mut ds = String::new();
    write_nat(&mut ds, d.mantissa);
    let n = ds.unicode_len();
    let ghost digits = ds@;
    assert(digits =~= nat_text(d.mantissa as nat));
    let mut padded = String::new();
    let mut k: u64 = 0;
    let pad: u64 = if (d.scale as u64) + 1 > n as u64 { (d.scale as u64) + 1 - n as u64 } else { 0 };
    while k < pad
        invariant
            k <= pad,
            padded@ == zeros(k as int),
        decreases pad - k,
    {
        push_char(&mut padded, '0');
        k += 1;
        assert(padded@ =~= zeros(k as int));
    }
    padded.append(ds.as_str());
    let ghost all = padded@;
    assert(all =~= zeros(d.scale + 1 - nat_text(d.mantissa as nat).len()) + nat_text(d.mantissa as nat));
    let len = padded.unicode_len();
    let cut = len - d.scale as usize;
    let ghost start = out@;
    let mut i: usize = 0;
    while i < len
        invariant
            len == all.len(),
            padded@ == all,
            cut == all.len() - d.scale,
            i <= len,
            out@ == start + if i <= cut {
                all.subrange(0, i as int)
            } else {
                all.subrange(0, cut as int) + seq!['.'] + all.subrange(cut as int, i as int)
            },
        decreases len - i,
    {
        if i == cut {
            push_char(out, '.');
        }
        push_char(out, padded.get_char(i));
        i += 1;
        proof {
            if i <= cut {
                assert(out@ =~= start + all.subrange(0, i as int));
            } else {
                assert(out@ =~= start + (all.subrange(0, cut as int) + seq!['.'] + all.subrange(cut as int, i as int)));
            }
        }
    }
    if cut == len {
        push_char(out, '.');
    }
    assert(out@ =~= start + decimal_text(d));
}

/// An integer in decimal.
pub fn write_int_text(i: i32) -> (r: String)
    ensures
        r@ == int_text(i as int),
{
    let mut out = String::new();
    write_int(&mut out, i);
    assert(out@ =~= int_text(i as int));
    out
}

impl BinaryOperator {
    /// The character that stands for the operator.
    pub fn symbol(&self) -> (c: char)
        ensures
            c == binary_symbol(*self),
    {
        match self {
            BinaryOperator::Add => '+',
            BinaryOperator::Subtract => '-',
            BinaryOperator::Multiply => '*',
            BinaryOperator::Divide => '/',
            BinaryOperator::Pow => '^',
            BinaryOperator::Gt => '>',
            BinaryOperator::Lt => '<',
            BinaryOperator::Lcm => 'l',
            BinaryOperator::Gcd => 'g',
            BinaryOperator::Eq => 'e',
            BinaryOperator::NEq => 'n',
            BinaryOperator::Gte => 'G',
            BinaryOperator::Lte => 'L',
            BinaryOperator::And => '&',
            BinaryOperator::Or => '|',
        }
    }

    /// The operator's character as text.
    pub fn to_string(&self) -> (r: String)
        ensures
            r@ == seq![binary_symbol(*self)],
    {
        let mut s = String::new();
        push_char(&mut s, self.symbol());
        s
    }
}

/// The name of a unary operator written as a function.
fn unary_text(op: UnaryOperator) -> (r: &'static str)
    ensures
        r@ == unary_name(op),
{
    match op {
        UnaryOperator::Floor => "floor",
        UnaryOperator::Ceil => "ceil",
        UnaryOperator::Cos => "cos",
        UnaryOperator::Sin => "sin",
        UnaryOperator::Tan => "tan",
        UnaryOperator::ACos => "acos",
        UnaryOperator::ASin => "asin",
        UnaryOperator::ATan => "atan",
        UnaryOperator::Neg => "neg",
        UnaryOperator::Factorial => "factorial",
    }
}

/// Appends the text between the operands of an infix operator.
fn write_infix(out: &mut String, op: BinaryOperator)
    ensures
        final(out)@ == old(out)@ + infix_text(op),
{
    match op {
        BinaryOperator::Eq => out.append(" == "),
        BinaryOperator::NEq => out.append(" != "),
        BinaryOperator::Gt => out.append(" > "),
        BinaryOperator::Lt => out.append(" < "),
        BinaryOperator::Gte => out.append(" >= "),
        BinaryOperator::Lte => out.append(" <= "),
        BinaryOperator::Or => out.append(" || "),
        BinaryOperator::And => out.append(" && "),
        _ => {
            push_char(out, ' ');
            push_char(out, op.symbol());
            push_char(out, ' ');
            assert(final(out)@ =~= old(out)@ + infix_text(op));
        },
    }
}

impl Expr {
    /// Appends the infix rendering of the tree.
    pub fn write_to(&self, out: &mut String)
        ensures
            final(out)@ == old(out)@ + show(*self),
        decreases self,
    {
        let ghost start = out@;
        match self {
            Expr::Variable(v) => {
                push_char(out, *v);
                assert(out@ =~= start + show(*self));
            },
            Expr::Assignment(v, node) => {
                push_char(out, *v);
                out.append(" = ");
                node.write_to(out);
                assert(out@ =~= start + show(*self));
            },
            Expr::Real(d) => write_decimal(out, *d),
            Expr::Integer(i) => write_int(out, *i),
            Expr::Bool(b) => {
                if *b {
                    out.append("true");
                } else {
                    out.append("false");
                }
            },
            Expr::UnaryOp { op, node } => {
                match op {
                    UnaryOperator::Neg => {
                        push_char(out, '-');
                        node.write_to(out);
                    },
                    UnaryOperator::Factorial => {
                        node.write_to(out);
                        push_char(out, '!');
                    },
                    _ => {
                        out.append(unary_text(*op));
                        push_char(out, '(');
                        node.write_to(out);
                        push_char(out, ')');
                    },
                }
                assert(out@ =~= start + show(*self));
            },
            Expr::BinaryOp { op, left, right } => {
                match op {
                    BinaryOperator::Gcd => {
                        out.append("gcd(");
                        left.write_to(out);
                        out.append(", ");
                        right.write_to(out);
                        push_char(out, ')');
                    },
                    BinaryOperator::Lcm => {
                        out.append("lcm(");
                        left.write_to(out);
                        out.append(", ");
                        right.write_to(out);
                        push_char(out, ')');
                    },
                    _ => {
                        left.write_to(out);
                        write_infix(out, *op);
                        right.write_to(out);
                    },
                }
                assert(out@ =~= start + show(*self));
            },
            Expr::Paren(inner) => {
                push_char(out, '(');
                inner.write_to(out);
                push_char(out, ')');
                assert(out@ =~= start + show(*self));
            },
            Expr::AbsVal(inner) => {
                push_char(out, '|');
                inner.write_to(out);
                push_char(out, '|');
                assert(out@ =~= start + show(*self));
            },
        }
    }

    /// The infix rendering of the tree: parentheses and bars as written,
    /// factorial as a trailing `!`, named operators as calls, the others infix.
    pub fn to_string(&self) -> (r: String)
        ensures
            r@ == show(*self),
    {
        let mut out = String::new();
        self.write_to(&mut out);
        assert(out@ =~= show(*self));
        out
    }
}

} // verus!
