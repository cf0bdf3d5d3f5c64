//! Raw tokenizer: source text to a flat sequence of tokens.
use vstd::prelude::*;
use vstd::string::{StrSliceExecFns, StringExecFns};

verus! {

/// An exact decimal number, `mantissa / 10^scale`, as written in the source.
#[derive(Clone, Copy, Debug, PartialEq, Eq, Structural)]
pub struct Decimal {
    /// The digits, the decimal point left out
    pub mantissa: u64,
    /// How many of the digits stand after the decimal point
    pub scale: u32,
}

/// A token
#[derive(Clone, Debug, PartialEq)]
pub enum Token {
    /// An integer
    Integer(i32),
    /// A single character variable
    Variable(char),
    /// An arbitrary identifier
    Ident(String),
    /// A number with a decimal point
    Real(Decimal),
    /// A boolean
    Bool(bool),
    /// Multiplication sign
    Multiply,
    /// Division sign
    Divide,
    /// Addition sign
    Plus,
    /// Subtraction sign
    Minus,
    /// Power caret
    Caret,
    /// Open parenthesis
    OpenParen,
    /// Closing parenthesis
    CloseParen,
    /// Exclamation mark !
    Exclamation,
    /// Bar |
    Bar,
    /// Comma
    Comma,
    /// Assignment operator "="
    Assign,
    /// Double equals "=="
    Eq,
    /// Not equals "!="
    NEq,
    /// Greater than ">"
    Gt,
    /// Greater than or equal to ">="
    Gte,
    /// Less than "<"
    Lt,
    /// Less than or equal to "<="
    Lte,
    /// Logical AND &&
    And,
    /// Logical OR ||
    Or,
    /// End Token
    EOF,
}

/// Invalid token read while tokenizing
#[derive(Debug, Clone, Copy, PartialEq, Eq)]
pub struct InvalidToken;

impl InvalidToken {
    /// The message that describes the error.
    pub fn to_string(&self) -> String {
        String::from_str("Token was invalid :(")
    }
}

/// What a token stands for, with an identifier's text as a sequence of characters.
pub enum Lexeme {
    /// An identifier with this text
    Word(Seq<char>),
    /// Any other token
    Other(Token),
}

/// The lexeme of a token.
pub open spec fn lexeme_of(t: Token) -> Lexeme {
    match t {
        Token::Ident(s) => Lexeme::Word(s@),
        _ => Lexeme::Other(t),
    }
}

/// The lexemes of a token sequence.
pub open spec fn lexemes(ts: Seq<Token>) -> Seq<Lexeme> {
    ts.map_values(|t: Token| lexeme_of(t))
}

/// Whether `c` has the Unicode White_Space property, as `char::is_whitespace` decides.
pub uninterp spec fn is_space(c: char) -> bool;

/// Whether `c` has the Unicode Alphabetic property, as `char::is_alphabetic` decides.
pub uninterp spec fn is_letter(c: char) -> bool;

/// Relies on `char::is_whitespace`: whether the character has the Unicode
/// White_Space property, which depends on the character alone.
#[verifier::external_body]
fn whitespace(c: char) -> (r: bool)
    ensures
        r == is_space(c),
{
    c.is_whitespace()
}

/// Relies on `char::is_alphabetic`: whether the character has the Unicode
/// Alphabetic property, which depends on the character alone.
#[verifier::external_body]
fn alphabetic(c: char) -> (r: bool)
    ensures
        r == is_letter(c),
{
    c.is_alphabetic()
}

/// Whitespace: among ASCII characters space, tab, line feed, vertical tab,
/// form feed and carriage return; beyond ASCII the White_Space property.
pub open spec fn is_blank(c: char) -> bool {
    if (c as u32) < 128 {
        c == ' ' || c == '\t' || c == '\n' || c == '\x0B' || c == '\x0C' || c == '\r'
    } else {
        is_space(c)
    }
}

/// A letter: among ASCII characters `a`-`z` and `A`-`Z`; beyond ASCII the
/// Alphabetic property.
pub open spec fn is_word_char(c: char) -> bool {
    if (c as u32) < 128 {
        ('a' <= c <= 'z') || ('A' <= c <= 'Z')
    } else {
        is_letter(c)
    }
}

/// Whether `c` is whitespace.
fn blank(c: char) -> (r: bool)
    ensures
        r == is_blank(c),
{
    if (c as u32) < 128 {
        c == ' ' || c == '\t' || c == '\n' || c == '\x0B' || c == '\x0C' || c == '\r'
    } else {
        whitespace(c)
    }
}

/// Whether `c` is a letter.
fn word_char(c: char) -> (r: bool)
    ensures
        r == is_word_char(c),
{
    if (c as u32) < 128 {
        ('a' <= c && c <= 'z') || ('A' <= c && c <= 'Z')
    } else {
        alphabetic(c)
    }
}

/// An ASCII decimal digit.
pub open spec fn is_digit(c: char) -> bool {
    '0' <= c <= '9'
}

/// Where the number that starts at `i` ends: digits, and at most one point
/// (`dot` tells whether one was taken already).
pub open spec fn number_end(s: Seq<char>, i: int, dot: bool) -> int
    decreases s.len() - i,
{
    if i < 0 || i >= s.len() {
        s.len() as int
    } else if is_digit(s[i]) {
        number_end(s, i + 1, dot)
    } else if s[i] == '.' && !dot {
        number_end(s, i + 1, true)
    } else {
        i
    }
}

/// Where the word that starts at `i` ends: a run of letters.
pub open spec fn word_end(s: Seq<char>, i: int) -> int
    decreases s.len() - i,
{
    if i < 0 || i >= s.len() {
        s.len() as int
    } else if is_word_char(s[i]) {
        word_end(s, i + 1)
    } else {
        i
    }
}

/// The value of the digits of `ds`, its points left out.
pub open spec fn digits_value(ds: Seq<char>) -> int
    decreases ds.len(),
{
    if ds.len() == 0 {
        0
    } else if ds.last() == '.' {
        digits_value(ds.drop_last())
    } else {
        digits_value(ds.drop_last()) * 10 + (ds.last() as int - '0' as int)
    }
}

/// How many digits of `ds` stand after its point.
pub open spec fn fraction_digits(ds: Seq<char>) -> int
    decreases ds.len(),
{
    if ds.len() == 0 || ds.last() == '.' {
        0
    } else if ds.drop_last().contains('.') {
        fraction_digits(ds.drop_last()) + 1
    } else {
        0
    }
}

/// The token for a number as written: real with a point, integer without;
/// none when it does not fit.
pub open spec fn number_token(ds: Seq<char>) -> Option<Token> {
    if ds.contains('.') {
        if digits_value(ds) <= u64::MAX && fraction_digits(ds) <= u32::MAX {
            Some(Token::Real(Decimal { mantissa: digits_value(ds) as u64, scale: fraction_digits(ds) as u32 }))
        } else {
            None
        }
    } else if digits_value(ds) <= i32::MAX {
        Some(Token::Integer(digits_value(ds) as i32))
    } else {
        None
    }
}

/// The lexeme for a word: a boolean, a variable for a single letter, else an identifier.
pub open spec fn word_lexeme(w: Seq<char>) -> Lexeme {
    if w == "true"@ {
        Lexeme::Other(Token::Bool(true))
    } else if w == "false"@ {
        Lexeme::Other(Token::Bool(false))
    } else if w.len() == 1 {
        Lexeme::Other(Token::Variable(w[0]))
    } else {
        Lexeme::Word(w)
    }
}

/// One step of the scan.
pub enum Step {
    /// The character at the position starts no token
    Fail,
    /// Whitespace: go on at this position
    Skip(int),
    /// A token, and the position after it
    Emit(Lexeme, int),
}

/// The token, if any, of an operator that the character `c` begins, with `next` the
/// character after it (if any); the second part tells whether both are taken.
pub open spec fn operator_at(c: char, next: Option<char>) -> Option<(Token, bool)> {
    if c == '(' {
        Some((Token::OpenParen, false))
    } else if c == ')' {
        Some((Token::CloseParen, false))
    } else if c == '*' {
        Some((Token::Multiply, false))
    } else if c == '/' || c == '\u{f7}' {
        Some((Token::Divide, false))
    } else if c == '+' {
        Some((Token::Plus, false))
    } else if c == '^' {
        Some((Token::Caret, false))
    } else if c == ',' {
        Some((Token::Comma, false))
    } else if c == '-' {
        Some((Token::Minus, false))
    } else if c == '|' {
        if next == Some('|') { Some((Token::Or, true)) } else { Some((Token::Bar, false)) }
    } else if c == '!' {
        if next == Some('=') { Some((Token::NEq, true)) } else { Some((Token::Exclamation, false)) }
    } else if c == '&' {
        if next == Some('&') { Some((Token::And, true)) } else { None }
    } else if c == '=' {
        if next == Some('=') { Some((Token::Eq, true)) } else { Some((Token::Assign, false)) }
    } else if c == '>' {
        if next == Some('=') { Some((Token::Gte, true)) } else { Some((Token::Gt, false)) }
    } else if c == '<' {
        if next == Some('=') { Some((Token::Lte, true)) } else { Some((Token::Lt, false)) }
    } else {
        None
    }
}

/// The characters that start an operator.
pub open spec fn is_operator_char(c: char) -> bool {
    c == '(' || c == ')' || c == '*' || c == '/' || c == '\u{f7}' || c == '+' || c == '^' || c == ','
        || c == '-' || c == '|' || c == '!' || c == '&' || c == '=' || c == '>' || c == '<'
}

/// What the scan does at position `i < s.len()`.
pub open spec fn step(s: Seq<char>, i: int) -> Step {
    let c = s[i];
    let next = if i + 1 < s.len() { Some(s[i + 1]) } else { None };
    if is_operator_char(c) {
        match operator_at(c, next) {
            Some((t, two)) => Step::Emit(Lexeme::Other(t), if two { i + 2 } else { i + 1 }),
            None => Step::Fail,
        }
    } else if is_blank(c) {
        Step::Skip(i + 1)
    } else if is_digit(c) {
        let j = number_end(s, i, false);
        match number_token(s.subrange(i, j)) {
            Some(t) => Step::Emit(Lexeme::Other(t), j),
            None => Step::Fail,
        }
    } else if is_word_char(c) {
        let j = word_end(s, i);
        Step::Emit(word_lexeme(s.subrange(i, j)), j)
    } else {
        Step::Fail
    }
}

/// The lexemes of `s` from position `i` on, ending with the end-of-input token;
/// none when a character starts no token.
pub open spec fn lex_from(s: Seq<char>, i: int) -> Option<Seq<Lexeme>>
    decreases s.len() - i,
{
    if i < 0 || i >= s.len() {
        Some(seq![Lexeme::Other(Token::EOF)])
    } else {
        match step(s, i) {
            Step::Fail => None,
            Step::Skip(j) => if i < j <= s.len() { lex_from(s, j) } else { None },
            Step::Emit(l, j) => if i < j <= s.len() {
                match lex_from(s, j) {
                    Some(rest) => Some(seq![l] + rest),
                    None => None,
                }
            } else {
                None
            },
        }
    }
}

/// The lexemes of the whole text.
pub open spec fn lex(s: Seq<char>) -> Option<Seq<Lexeme>> {
    lex_from(s, 0)
}

/// A number ends no earlier than it starts and within the text.
pub proof fn lemma_number_end(s: Seq<char>, i: int, dot: bool)
    requires
        0 <= i <= s.len(),
    ensures
        i <= number_end(s, i, dot) <= s.len(),
    decreases s.len() - i,
{
    if i < s.len() {
        if is_digit(s[i]) {
            lemma_number_end(s, i + 1, dot);
        } else if s[i] == '.' && !dot {
            lemma_number_end(s, i + 1, true);
        }
    }
}

/// A word ends no earlier than it starts and within the text.
pub proof fn lemma_word_end(s: Seq<char>, i: int)
    requires
        0 <= i <= s.len(),
    ensures
        i <= word_end(s, i) <= s.len(),
    decreases s.len() - i,
{
    if i < s.len() && is_word_char(s[i]) {
        lemma_word_end(s, i + 1);
    }
}

/// Whether two texts are the same.
pub(crate) fn same_text(a: &str, b: &str) -> (r: bool)
    ensures
        r == (a@ == b@),
{
    let n = a.unicode_len();
    if n != b.unicode_len() {
        return false;
    }
    let mut i: usize = 0;
    while i < n
        invariant
            n == a@.len(),
            n == b@.len(),
            i <= n,
            forall|k: int| 0 <= k < i ==> a@[k] == b@[k],
        decreases n - i,
    {
        if a.get_char(i) != b.get_char(i) {
            return false;
        }
        i += 1;
    }
    assert(a@ =~= b@);
    true
}

/// Scans the number that starts at `i`.
fn scan_number(s: &str, n: usize, i: usize) -> (r: (Option<Token>, usize))
    requires
        n == s@.len(),
        i < n,
        is_digit(s@[i as int]),
    ensures
        r.1 == number_end(s@, i as int, false),
        r.0 == number_token(s@.subrange(i as int, r.1 as int)),
{
    let mut j: usize = i;
    let mut dot = false;
    let mut value: u64 = 0;
    let mut too_large = false;
    let mut frac: usize = 0;
    let mut done = false;
    proof {
        lemma_number_end(s@, i as int, false);
    }
    while j < n && !done
        invariant
            n == s@.len(),
            i <= j <= n,
            number_end(s@, i as int, false) == number_end(s@, j as int, dot),
            done ==> number_end(s@, j as int, dot) == j,
            dot == s@.subrange(i as int, j as int).contains('.'),
            !too_large ==> value as int == digits_value(s@.subrange(i as int, j as int)),
            too_large ==> digits_value(s@.subrange(i as int, j as int)) > u64::MAX,
            frac as int == fraction_digits(s@.subrange(i as int, j as int)),
            frac <= j - i,
        decreases n - j + if done { 0int } else { 1int },
    {
        let c = s.get_char(j);
        let ghost pre = s@.subrange(i as int, j as int);
        let ghost ext = s@.subrange(i as int, j as int + 1);
        assert(ext.drop_last() =~= pre);
        assert(ext.last() == c);
        if '0' <= c && c <= '9' {
            let d = (c as u32 - '0' as u32) as u64;
            if !too_large {
                if value <= (u64::MAX - d) / 10 {
                    value = value * 10 + d;
                } else {
                    too_large = true;
                }
            }
            if dot {
                frac += 1;
            }
        } else if c == '.' && !dot {
            dot = true;
        } else {
            done = true;
        }
        if done {
            continue;
        }
        proof {
            if ext.contains('.') {
                let k = choose|k: int| 0 <= k < ext.len() && ext[k] == '.';
                if k < pre.len() {
                    assert(pre[k] == '.');
                }
            }
            if pre.contains('.') {
                let k = choose|k: int| 0 <= k < pre.len() && pre[k] == '.';
                assert(ext[k] == '.');
            }
        }
        j += 1;
    }
    proof {
        lemma_number_end(s@, j as int, dot);
    }
    if dot {
        if too_large || frac > 0xffff_ffff {
            (None, j)
        } else {
            (Some(Token::Real(Decimal { mantissa: value, scale: frac as u32 })), j)
        }
    } else if too_large || value > 0x7fff_ffff {
        (None, j)
    } else {
        (Some(Token::Integer(value as i32)), j)
    }
}

/// Scans the word that starts at `i`.
fn scan_word(s: &str, n: usize, i: usize) -> (r: (Token, usize))
    requires
        n == s@.len(),
        i < n,
        is_word_char(s@[i as int]),
    ensures
        r.1 == word_end(s@, i as int),
        lexeme_of(r.0) == word_lexeme(s@.subrange(i as int, r.1 as int)),
{
    let mut j: usize = i;
    let mut done = false;
    while j < n && !done
        invariant
            n == s@.len(),
            i <= j <= n,
            word_end(s@, i as int) == word_end(s@, j as int),
            done ==> word_end(s@, j as int) == j,
        decreases n - j + if done { 0int } else { 1int },
    {
        if !word_char(s.get_char(j)) {
            done = true;
        } else {
            j += 1;
        }
    }
    let word = s.substring_char(i, j);
    proof {
        reveal_strlit("true");
        reveal_strlit("false");
    }
    if same_text(word, "true") {
        (Token::Bool(true), j)
    } else if same_text(word, "false") {
        (Token::Bool(false), j)
    } else if j - i == 1 {
        (Token::Variable(s.get_char(i)), j)
    } else {
        (Token::Ident(String::from_str(word)), j)
    }
}

/// The operator token that starts at `i`, if it is one.
fn scan_operator(s: &str, n: usize, i: usize) -> (r: Option<(Token, usize)>)
    requires
        n == s@.len(),
        i < n,
        is_operator_char(s@[i as int]),
    ensures
        match operator_at(s@[i as int], if i + 1 < n { Some(s@[i + 1]) } else { None }) {
            Some((t, two)) => r == Some((t, if two { (i + 2) as usize } else { (i + 1) as usize })),
            None => r is None,
        },
{
    let c = s.get_char(i);
    let next: Option<char> = if i + 1 < n { Some(s.get_char(i + 1)) } else { None };
    let is_next = |x: char| -> (b: bool) ensures b == (next == Some(x)) {
        match next { Some(y) => y == x, None => false }
    };
    if c == '(' {
        Some((Token::OpenParen, i + 1))
    } else if c == ')' {
        Some((Token::CloseParen, i + 1))
    } else if c == '*' {
        Some((Token::Multiply, i + 1))
    } else if c == '/' || c == '\u{f7}' {
        Some((Token::Divide, i + 1))
    } else if c == '+' {
        Some((Token::Plus, i + 1))
    } else if c == '^' {
        Some((Token::Caret, i + 1))
    } else if c == ',' {
        Some((Token::Comma, i + 1))
    } else if c == '-' {
        Some((Token::Minus, i + 1))
    } else if c == '|' {
        if is_next('|') { Some((Token::Or, i + 2)) } else { Some((Token::Bar, i + 1)) }
    } else if c == '!' {
        if is_next('=') { Some((Token::NEq, i + 2)) } else { Some((Token::Exclamation, i + 1)) }
    } else if c == '&' {
        if is_next('&') { Some((Token::And, i + 2)) } else { None }
    } else if c == '=' {
        if is_next('=') { Some((Token::Eq, i + 2)) } else { Some((Token::Assign, i + 1)) }
    } else if c == '>' {
        if is_next('=') { Some((Token::Gte, i + 2)) } else { Some((Token::Gt, i + 1)) }
    } else {
        if is_next('=') { Some((Token::Lte, i + 2)) } else { Some((Token::Lt, i + 1)) }
    }
}

/// Tokenizes `s`: whitespace is skipped, and an end-of-input token closes the
/// sequence. Fails when a character starts no token, or a number does not fit.
pub fn tokenize(s: &str) -> (r: Result<Vec<Token>, InvalidToken>)
    ensures
        match lex(s@) {
            Some(ls) => r is Ok && lexemes(r->Ok_0@) == ls,
            None => r is Err,
        },
{
    let n = s.unicode_len();
    let mut tokens: Vec<Token> = Vec::new();
    let mut i: usize = 0;
    while i < n
        invariant
            n == s@.len(),
            i <= n,
            lex(s@) == match lex_from(s@, i as int) {
                Some(rest) => Some(lexemes(tokens@) + rest),
                None => None::<Seq<Lexeme>>,
            },
        decreases n - i,
    {
        let c = s.get_char(i);
        let ghost before = tokens@;
        if c == '(' || c == ')' || c == '*' || c == '/' || c == '\u{f7}' || c == '+' || c == '^' || c == ','
            || c == '-' || c == '|' || c == '!' || c == '&' || c == '=' || c == '>' || c == '<' {
            match scan_operator(s, n, i) {
                Some((t, j)) => {
                    proof {
                        assert(lexemes(before.push(t)) =~= lexemes(before) + seq![lexeme_of(t)]);
                    }
                    tokens.push(t);
                    i = j;
                },
                None => {
                    return Err(InvalidToken);
                },
            }
        } else if blank(c) {
            i += 1;
        } else if '0' <= c && c <= '9' {
            let (t, j) = scan_number(s, n, i);
            proof {
                lemma_number_end(s@, i as int + 1, false);
            }
            match t {
                Some(t) => {
                    proof {
                        assert(lexemes(before.push(t)) =~= lexemes(before) + seq![lexeme_of(t)]);
                    }
                    tokens.push(t);
                    i = j;
                },
                None => {
                    return Err(InvalidToken);
                },
            }
        } else if word_char(c) {
            let (t, j) = scan_word(s, n, i);
            proof {
                lemma_word_end(s@, i as int + 1);
                assert(lexemes(before.push(t)) =~= lexemes(before) + seq![lexeme_of(t)]);
            }
            tokens.push(t);
            i = j;
        } else {
            return Err(InvalidToken);
        }
    }
    let ghost before = tokens@;
    tokens.push(Token::EOF);
    proof {
        assert(lexemes(tokens@) =~= lexemes(before) + seq![Lexeme::Other(Token::EOF)]);
    }
    Ok(tokens)
}

/// Trait for providing tokenization functionality for a struct
pub trait Tokenizable {
    /// The error type on tokenization failure
    type Error;

    /// Tokenize the current struct
    fn tokenize(&self) -> Result<Vec<Token>, Self::Error>;
}

impl Tokenizable for str {
    type Error = InvalidToken;

    /// The tokens of the text, as the free function `tokenize` gives them.
    fn tokenize(&self) -> (r: Result<Vec<Token>, InvalidToken>)
        ensures
            match lex(self@) {
                Some(ls) => r is Ok && lexemes(r->Ok_0@) == ls,
                None => r is Err,
            },
    {
        tokenize(self)
    }
}

} // verus!
