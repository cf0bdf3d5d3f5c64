//! Formatting a tree of literals and parentheses, then tokenizing and parsing
//! the text, gives the tree back.
use crate::ast::{
    chained_rest, closed_stream, expression_rest, factorial_rest, parse_assignment, parse_chained, parse_comparison,
    parse_expression, parse_factor, parse_factorial, parse_power, parse_term, parse_tokens, power_rest, term_rest,
    tok, Expr,
};
use crate::display::{decimal_text, digit_char, int_text, nat_text, show, zeros};
use crate::tokenizer::{
    digits_value, fraction_digits, is_digit, is_word_char, lex, lex_from, lexeme_of, lexemes, number_end,
    number_token, step, word_end, word_lexeme, Decimal, Lexeme, Step, Token,
};
use vstd::arithmetic::power::pow;
use vstd::prelude::*;

verus! {

/// A digit character stands for its value.
proof fn lemma_digit_char(d: int)
    requires
        0 <= d < 10,
    ensures
        is_digit(digit_char(d)),
        digit_char(d) as int - '0' as int == d,
{
}

/// A sequence of digits with no point.
pub open spec fn all_digits(s: Seq<char>) -> bool {
    forall|k: int| 0 <= k < s.len() ==> is_digit(#[trigger] s[k])
}

/// The digits of `n` are digits, and their value is `n`.
proof fn lemma_nat_text(n: nat)
    ensures
        nat_text(n).len() >= 1,
        all_digits(nat_text(n)),
        digits_value(nat_text(n)) == n,
    decreases n,
{
    if n < 10 {
        lemma_digit_char(n as int);
        let s = nat_text(n);
        assert(s.drop_last() =~= Seq::<char>::empty());
        assert(s.last() == digit_char(n as int));
        assert(s.last() != '.');
        assert(digits_value(s) == digits_value(s.drop_last()) * 10 + (n as int));
    } else {
        lemma_nat_text(n / 10);
        lemma_digit_char(n as int % 10);
        let p = nat_text(n / 10);
        let s = nat_text(n);
        assert(s.drop_last() =~= p);
        assert(s.last() == digit_char(n as int % 10));
        vstd::arithmetic::div_mod::lemma_fundamental_div_mod(n as int, 10);
        assert(digits_value(s) == digits_value(p) * 10 + (n as int % 10));
        assert((n as int / 10) * 10 + n as int % 10 == n) by (nonlinear_arith)
            requires
                n as int == 10 * (n as int / 10) + n as int % 10,
        ;
        assert forall|k: int| 0 <= k < s.len() implies is_digit(#[trigger] s[k]) by {
            if k < p.len() {
                assert(s[k] == p[k]);
            }
        }
    }
}

/// `k` zeros are digits of value zero.
proof fn lemma_zeros(k: int)
    ensures
        all_digits(zeros(k)),
        digits_value(zeros(k)) == 0,
    decreases k,
{
    if k > 0 {
        lemma_zeros(k - 1);
        assert(zeros(k).drop_last() =~= zeros(k - 1));
    } else {
        assert(zeros(k) =~= Seq::<char>::empty());
    }
}

/// The value of digits written after others.
proof fn lemma_value_concat(x: Seq<char>, y: Seq<char>)
    requires
        all_digits(y),
    ensures
        digits_value(x + y) == digits_value(x) * pow(10, y.len()) + digits_value(y),
    decreases y.len(),
{
    reveal(pow);
    if y.len() == 0 {
        assert(x + y =~= x);
    } else {
        let y1 = y.drop_last();
        assert(all_digits(y1));
        lemma_value_concat(x, y1);
        assert((x + y).drop_last() =~= x + y1);
        assert((x + y).last() == y.last());
        assert(is_digit(y[y.len() - 1]));
        let vx = digits_value(x);
        let vy1 = digits_value(y1);
        let p = pow(10, y1.len());
        assert(pow(10, y.len()) == 10 * p);
        let c = y.last() as int - '0' as int;
        assert((vx * p + vy1) * 10 + c == vx * (10 * p) + (vy1 * 10 + c)) by (nonlinear_arith);
    }
}

/// A point among digits does not change their value.
proof fn lemma_value_point(x: Seq<char>, y: Seq<char>)
    requires
        all_digits(y),
    ensures
        digits_value(x + seq!['.'] + y) == digits_value(x + y),
    decreases y.len(),
{
    if y.len() == 0 {
        assert((x + seq!['.'] + y).drop_last() =~= x);
        assert(x + y =~= x);
    } else {
        let y1 = y.drop_last();
        assert(all_digits(y1));
        lemma_value_point(x, y1);
        assert((x + seq!['.'] + y).drop_last() =~= x + seq!['.'] + y1);
        assert((x + y).drop_last() =~= x + y1);
        assert(is_digit(y[y.len() - 1]));
    }
}

/// The digits after the point are counted.
proof fn lemma_fraction(x: Seq<char>, y: Seq<char>)
    requires
        all_digits(x),
        all_digits(y),
    ensures
        fraction_digits(x + seq!['.'] + y) == y.len(),
        (x + seq!['.'] + y).contains('.'),
    decreases y.len(),
{
    let s = x + seq!['.'] + y;
    assert(s[x.len() as int] == '.');
    if y.len() == 0 {
        assert(s.last() == '.');
    } else {
        let y1 = y.drop_last();
        assert(all_digits(y1));
        lemma_fraction(x, y1);
        assert(s.drop_last() =~= x + seq!['.'] + y1);
        assert(is_digit(y[y.len() - 1]));
        assert(s.last() == y.last());
    }
}

/// A run of digits does not change where a number ends.
proof fn lemma_skip_digits(s: Seq<char>, i: int, j: int, dot: bool)
    requires
        0 <= i <= j <= s.len(),
        forall|k: int| i <= k < j ==> is_digit(#[trigger] s[k]),
    ensures
        number_end(s, i, dot) == number_end(s, j, dot),
    decreases j - i,
{
    if i < j {
        lemma_skip_digits(s, i + 1, j, dot);
    }
}


/// A decimal as written is digits, a point and `scale` digits, of value the mantissa.
proof fn lemma_decimal_text(d: Decimal)
    ensures
        ({
            let ds = zeros(d.scale + 1 - nat_text(d.mantissa as nat).len()) + nat_text(d.mantissa as nat);
            let cut = ds.len() - d.scale;
            let a = ds.subrange(0, cut);
            let b = ds.subrange(cut, ds.len() as int);
            &&& all_digits(a)
            &&& all_digits(b)
            &&& a.len() >= 1
            &&& b.len() == d.scale
            &&& decimal_text(d) == a + seq!['.'] + b
        }),
        digits_value(decimal_text(d)) == d.mantissa,
        fraction_digits(decimal_text(d)) == d.scale,
        decimal_text(d).contains('.'),
{
    let n = nat_text(d.mantissa as nat);
    let z = zeros(d.scale + 1 - n.len());
    let ds = z + n;
    let cut = ds.len() - d.scale;
    let a = ds.subrange(0, cut);
    let b = ds.subrange(cut, ds.len() as int);
    lemma_nat_text(d.mantissa as nat);
    lemma_zeros(d.scale + 1 - n.len());
    assert(all_digits(ds)) by {
        assert forall|k: int| 0 <= k < ds.len() implies is_digit(#[trigger] ds[k]) by {
            if k < z.len() {
                assert(ds[k] == z[k]);
            } else {
                assert(ds[k] == n[k - z.len()]);
            }
        }
    }
    assert(all_digits(a)) by {
        assert forall|k: int| 0 <= k < a.len() implies is_digit(#[trigger] a[k]) by {
            assert(a[k] == ds[k]);
        }
    }
    assert(all_digits(b)) by {
        assert forall|k: int| 0 <= k < b.len() implies is_digit(#[trigger] b[k]) by {
            assert(b[k] == ds[k + cut]);
        }
    }
    assert(a + b =~= ds);
    lemma_value_point(a, b);
    lemma_value_concat(z, n);
    assert(digits_value(z) * pow(10, n.len()) == 0);
    lemma_fraction(a, b);
}

/// A run of letters does not change where a word ends.
proof fn lemma_skip_letters(s: Seq<char>, i: int, j: int)
    requires
        0 <= i <= j <= s.len(),
        forall|k: int| i <= k < j ==> is_word_char(#[trigger] s[k]),
    ensures
        word_end(s, i) == word_end(s, j),
    decreases j - i,
{
    if i < j {
        lemma_skip_letters(s, i + 1, j);
    }
}

/// A leaf of a literal tree: a non-negative integer, a real or a boolean.
pub open spec fn literal_leaf(e: Expr) -> bool {
    match e {
        Expr::Integer(i) => i >= 0,
        Expr::Real(_) => true,
        Expr::Bool(_) => true,
        _ => false,
    }
}

/// The token of a literal leaf.
pub open spec fn leaf_token(e: Expr) -> Token {
    match e {
        Expr::Integer(i) => Token::Integer(i),
        Expr::Real(d) => Token::Real(d),
        Expr::Bool(b) => Token::Bool(b),
        _ => Token::EOF,
    }
}

/// `s` holds `t` from position `i`, followed by a closing parenthesis or the end.
pub open spec fn holds_at(s: Seq<char>, i: int, t: Seq<char>) -> bool {
    &&& 0 <= i
    &&& i + t.len() <= s.len()
    &&& s.subrange(i, i + t.len()) == t
    &&& (i + t.len() == s.len() || s[i + t.len()] == ')')
}

/// The scan reads a literal leaf as its token.
proof fn lemma_step_leaf(s: Seq<char>, i: int, e: Expr)
    requires
        literal_leaf(e),
        holds_at(s, i, show(e)),
    ensures
        show(e).len() >= 1,
        step(s, i) == Step::Emit(Lexeme::Other(leaf_token(e)), i + show(e).len()),
{
    let t = show(e);
    let j = i + t.len();
    assert forall|k: int| 0 <= k < t.len() implies s[i + k] == #[trigger] t[k] by {
        assert(s.subrange(i, j)[k] == s[i + k]);
    }
    match e {
        Expr::Integer(n) => {
            lemma_nat_text(n as nat);
            assert(t == nat_text(n as nat));
            assert(s[i] == t[0]);
            assert forall|k: int| i <= k < j implies is_digit(#[trigger] s[k]) by {
                assert(s[i + (k - i)] == t[k - i]);
            }
            lemma_skip_digits(s, i, j, false);
            assert(number_end(s, i, false) == j);
            assert(s.subrange(i, j) == t);
            assert(!t.contains('.'));
            assert(number_token(t) == Some(Token::Integer(n)));
        },
        Expr::Real(d) => {
            lemma_decimal_text(d);
            let n = nat_text(d.mantissa as nat);
            let ds = zeros(d.scale + 1 - n.len()) + n;
            let cut = ds.len() - d.scale;
            let a = ds.subrange(0, cut);
            let b = ds.subrange(cut, ds.len() as int);
            assert(t == a + seq!['.'] + b);
            let p = i + a.len();
            assert(s[i] == t[0]);
            assert(t[0] == a[0]);
            assert forall|k: int| i <= k < p implies is_digit(#[trigger] s[k]) by {
                assert(s[i + (k - i)] == t[k - i]);
                assert(t[k - i] == a[k - i]);
            }
            assert(s[p] == t[a.len() as int]);
            assert(s[p] == '.');
            assert forall|k: int| p + 1 <= k < j implies is_digit(#[trigger] s[k]) by {
                assert(s[i + (k - i)] == t[k - i]);
                assert(t[k - i] == b[k - i - a.len() - 1]);
            }
            lemma_skip_digits(s, i, p, false);
            lemma_skip_digits(s, p + 1, j, true);
            assert(number_end(s, p, false) == number_end(s, p + 1, true));
            assert(number_end(s, i, false) == j);
            assert(s.subrange(i, j) == t);
            assert(number_token(t) == Some(Token::Real(d)));
        },
        Expr::Bool(b) => {
            reveal_strlit("true");
            reveal_strlit("false");
            assert(s[i] == t[0]);
            assert forall|k: int| i <= k < j implies is_word_char(#[trigger] s[k]) by {
                assert(s[i + (k - i)] == t[k - i]);
            }
            lemma_skip_letters(s, i, j);
            assert(word_end(s, i) == j);
            assert(s.subrange(i, j) == t);
            assert(word_lexeme(t) == Lexeme::Other(Token::Bool(b)));
        },
        _ => {},
    }
}


/// A tree built from literal leaves and parentheses alone.
pub open spec fn literal_tree(e: Expr) -> bool
    decreases e,
{
    match e {
        Expr::Paren(inner) => literal_tree(*inner),
        _ => literal_leaf(e),
    }
}

/// The tokens a literal tree is written with.
pub open spec fn tokens_of(e: Expr) -> Seq<Token>
    decreases e,
{
    match e {
        Expr::Paren(inner) => seq![Token::OpenParen] + tokens_of(*inner) + seq![Token::CloseParen],
        _ => seq![leaf_token(e)],
    }
}

/// The lexemes of tokens without identifiers.
pub open spec fn plain_lexemes(ts: Seq<Token>) -> Seq<Lexeme> {
    ts.map_values(|t: Token| Lexeme::Other(t))
}

/// `o` with `p` in front, if it is there.
pub open spec fn prefixed(p: Seq<Lexeme>, o: Option<Seq<Lexeme>>) -> Option<Seq<Lexeme>> {
    match o {
        Some(r) => Some(p + r),
        None => None,
    }
}

/// The scan reads a literal tree as its tokens.
proof fn lemma_lex_tree(s: Seq<char>, i: int, e: Expr)
    requires
        literal_tree(e),
        holds_at(s, i, show(e)),
    ensures
        show(e).len() >= 1,
        lex_from(s, i) == prefixed(plain_lexemes(tokens_of(e)), lex_from(s, i + show(e).len())),
    decreases e,
{
    let t = show(e);
    let j = i + t.len();
    match e {
        Expr::Paren(inner) => {
            let x = *inner;
            let tx = show(x);
            let n = tx.len() as int;
            assert(t == seq!['('] + tx + seq![')']);
            assert(s.subrange(i, j)[0] == s[i]);
            assert(s[i] == '(');
            assert(s.subrange(i + 1, i + 1 + n) =~= s.subrange(i, j).subrange(1, 1 + n));
            assert(s.subrange(i, j).subrange(1, 1 + n) =~= tx);
            assert(s.subrange(i, j)[1 + n] == s[i + 1 + tx.len()]);
            assert(s[i + 1 + tx.len()] == ')');
            lemma_lex_tree(s, i + 1, x);
            assert(step(s, i) == Step::Emit(Lexeme::Other(Token::OpenParen), i + 1));
            assert(step(s, i + 1 + n) == Step::Emit(Lexeme::Other(Token::CloseParen), j));
            let rest = lex_from(s, j);
            let inner_ls = plain_lexemes(tokens_of(x));
            assert(plain_lexemes(tokens_of(e)) =~= seq![Lexeme::Other(Token::OpenParen)] + inner_ls + seq![Lexeme::Other(Token::CloseParen)]);
            match rest {
                Some(r) => {
                    assert(lex_from(s, i + 1 + n) == Some(seq![Lexeme::Other(Token::CloseParen)] + r));
                    assert(lex_from(s, i + 1) == Some(inner_ls + (seq![Lexeme::Other(Token::CloseParen)] + r)));
                    assert(seq![Lexeme::Other(Token::OpenParen)] + (inner_ls + (seq![Lexeme::Other(Token::CloseParen)] + r))
                        =~= plain_lexemes(tokens_of(e)) + r);
                },
                None => {},
            }
        },
        _ => {
            lemma_step_leaf(s, i, e);
            assert(plain_lexemes(tokens_of(e)) =~= seq![Lexeme::Other(leaf_token(e))]);
        },
    }
}


/// A factor that a closing parenthesis or the end follows is a whole chain.
proof fn lemma_factor_is_chain(t: Seq<Token>, i: int, e: Expr, j: int)
    requires
        parse_factor(t, i) == Some((e, j)),
        0 <= i < j < t.len(),
        t[j] is CloseParen || t[j] is EOF,
    ensures
        parse_chained(t, i) == Some((e, j)),
{
    assert(factorial_rest(t, e, j) == Some((e, j)));
    assert(parse_factorial(t, i) == Some((e, j)));
    assert(power_rest(t, e, j) == Some((e, j)));
    assert(parse_power(t, i) == Some((e, j)));
    assert(term_rest(t, e, j) == Some((e, j)));
    assert(parse_term(t, i) == Some((e, j)));
    assert(expression_rest(t, e, j) == Some((e, j)));
    assert(parse_expression(t, i) == Some((e, j)));
    assert(parse_comparison(t, i) == Some((e, j)));
    assert(chained_rest(t, e, j) == Some((e, j)));
}

/// The parser reads the tokens of a literal tree back as the tree.
proof fn lemma_parse_tree(t: Seq<Token>, i: int, e: Expr)
    requires
        literal_tree(e),
        0 <= i,
        i + tokens_of(e).len() < t.len(),
        t.subrange(i, i + tokens_of(e).len()) == tokens_of(e),
        t[i + tokens_of(e).len()] is CloseParen || t[i + tokens_of(e).len()] is EOF,
    ensures
        parse_factor(t, i) == Some((e, i + tokens_of(e).len())),
        parse_chained(t, i) == Some((e, i + tokens_of(e).len())),
    decreases e,
{
    let ts = tokens_of(e);
    let j = i + ts.len();
    assert(t.subrange(i, j)[0] == t[i]);
    match e {
        Expr::Paren(inner) => {
            let x = *inner;
            let tx = tokens_of(x);
            let n = tx.len() as int;
            assert(ts == seq![Token::OpenParen] + tx + seq![Token::CloseParen]);
            assert(t[i] is OpenParen);
            assert(t.subrange(i + 1, i + 1 + n) =~= t.subrange(i, j).subrange(1, 1 + n));
            assert(t.subrange(i, j).subrange(1, 1 + n) =~= tx);
            assert(t.subrange(i, j)[1 + n] == t[i + 1 + n]);
            assert(t[i + 1 + n] is CloseParen);
            lemma_parse_tree(t, i + 1, x);
            assert(parse_factor(t, i) == Some((e, j)));
        },
        _ => {
            assert(ts == seq![leaf_token(e)]);
            assert(t[i] == leaf_token(e));
            assert(parse_factor(t, i) == Some((e, j)));
        },
    }
    lemma_factor_is_chain(t, i, e, j);
}

/// A literal tree is written with at least one token, none of them an identifier or a variable.
proof fn lemma_tokens_of(e: Expr)
    requires
        literal_tree(e),
    ensures
        tokens_of(e).len() >= 1,
        !(tokens_of(e)[0] is Variable),
        forall|k: int| 0 <= k < tokens_of(e).len() ==> !(#[trigger] tokens_of(e)[k] is Ident),
    decreases e,
{
    match e {
        Expr::Paren(inner) => {
            lemma_tokens_of(*inner);
            let tx = tokens_of(*inner);
            let ts = tokens_of(e);
            assert forall|k: int| 0 <= k < ts.len() implies !(#[trigger] ts[k] is Ident) by {
                if 1 <= k < 1 + tx.len() {
                    assert(ts[k] == tx[k - 1]);
                }
            }
        },
        _ => {},
    }
}

/// Round trip: the text of a tree built from literals (non-negative integers,
/// reals, booleans) and parentheses tokenizes without error, and whatever
/// tokens carry its lexemes parse back to the same tree, whose text is then
/// the same text.
pub proof fn lemma_round_trip(e: Expr, tokens: Seq<Token>)
    requires
        literal_tree(e),
    ensures
        lex(show(e)) == Some(plain_lexemes(tokens_of(e).push(Token::EOF))),
        lexemes(tokens) == lex(show(e))->Some_0 ==> parse_tokens(closed_stream(tokens)) == Some(e),
{
    let s = show(e);
    assert(s.subrange(0, s.len() as int) =~= s);
    lemma_lex_tree(s, 0, e);
    assert(lex_from(s, s.len() as int) == Some(seq![Lexeme::Other(Token::EOF)]));
    assert(plain_lexemes(tokens_of(e)) + seq![Lexeme::Other(Token::EOF)] =~= plain_lexemes(tokens_of(e).push(Token::EOF)));
    let expected = tokens_of(e).push(Token::EOF);
    lemma_tokens_of(e);
    if lexemes(tokens) == lex(show(e))->Some_0 {
        assert(tokens.len() == expected.len());
        assert forall|k: int| 0 <= k < tokens.len() implies tokens[k] == expected[k] by {
            assert(lexemes(tokens)[k] == lexeme_of(tokens[k]));
            assert(plain_lexemes(expected)[k] == Lexeme::Other(expected[k]));
            if k < tokens_of(e).len() {
                assert(!(expected[k] is Ident));
            }
        }
        assert(tokens =~= expected);
        assert(closed_stream(tokens) == tokens);
        let n = tokens_of(e).len() as int;
        assert(tokens.subrange(0, n) =~= tokens_of(e));
        lemma_parse_tree(tokens, 0, e);
        assert(!(tok(tokens, 0) is Variable));
        assert(parse_assignment(tokens) == Some((e, n)));
    }
}

} // verus!
