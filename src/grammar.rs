//! The grammar as spec functions over characters: what each rule yields
//! from a position, and how many characters it consumes.

use vstd::prelude::*;
use crate::ast::{BinOp, Tree};

verus! {

/// The token that a parse needed and did not find.
#[derive(Clone, Copy, PartialEq, Eq, Structural, Debug)]
pub enum Expected {
    Let,
    If,
    While,
    OpenBrace,
    CloseBrace,
    CloseParen,
    Colon,
    Semicolon,
    Type,
    Identifier,
    DoubleBar,
    DoubleAmpersand,
}

/// Why a parse failed. Parsing stops at the first failure.
#[derive(Clone, Copy, PartialEq, Eq, Structural, Debug)]
pub enum ParseError {
    /// A specific token was required where the input has something else.
    Expected(Expected),
    /// A run of digits whose value does not fit in an `i32`.
    IntegerOutOfRange,
}

/// The message that reports `e`, naming the token that was expected.
pub open spec fn error_message(e: ParseError) -> Seq<char> {
    match e {
        ParseError::Expected(Expected::Let) => "expected 'let'"@,
        ParseError::Expected(Expected::If) => "expected 'if'"@,
        ParseError::Expected(Expected::While) => "expected 'while'"@,
        ParseError::Expected(Expected::OpenBrace) => "expected '{'"@,
        ParseError::Expected(Expected::CloseBrace) => "expected '}'"@,
        ParseError::Expected(Expected::CloseParen) => "expected ')'"@,
        ParseError::Expected(Expected::Colon) => "expected ':'"@,
        ParseError::Expected(Expected::Semicolon) => "expected ';'"@,
        ParseError::Expected(Expected::Type) => "expected type 'i32'"@,
        ParseError::Expected(Expected::Identifier) => "expected an identifier"@,
        ParseError::Expected(Expected::DoubleBar) => "expected '||'"@,
        ParseError::Expected(Expected::DoubleAmpersand) => "expected '&&'"@,
        ParseError::IntegerOutOfRange => "integer literal out of range for i32"@,
    }
}

impl ParseError {
    pub fn message(&self) -> (r: String)
        ensures
            r@ == error_message(*self),
    {
        let text = match self {
            ParseError::Expected(Expected::Let) => "expected 'let'",
            ParseError::Expected(Expected::If) => "expected 'if'",
            ParseError::Expected(Expected::While) => "expected 'while'",
            ParseError::Expected(Expected::OpenBrace) => "expected '{'",
            ParseError::Expected(Expected::CloseBrace) => "expected '}'",
            ParseError::Expected(Expected::CloseParen) => "expected ')'",
            ParseError::Expected(Expected::Colon) => "expected ':'",
            ParseError::Expected(Expected::Semicolon) => "expected ';'",
            ParseError::Expected(Expected::Type) => "expected type 'i32'",
            ParseError::Expected(Expected::Identifier) => "expected an identifier",
            ParseError::Expected(Expected::DoubleBar) => "expected '||'",
            ParseError::Expected(Expected::DoubleAmpersand) => "expected '&&'",
            ParseError::IntegerOutOfRange => "integer literal out of range for i32",
        };
        String::from_str(text)
    }
}

/// The outcome of a parse that starts at some position: the tree, and how
/// many characters it consumed from that position.
pub type Parsed = Result<(Tree, nat), ParseError>;

/// Unicode `White_Space`, the set that `char::is_whitespace` tests.
pub open spec fn is_space(c: char) -> bool {
    let u = c as u32;
    (9 <= u <= 13) || u == 32 || u == 0x85 || u == 0xa0 || u == 0x1680 || (0x2000 <= u <= 0x200a)
        || u == 0x2028 || u == 0x2029 || u == 0x202f || u == 0x205f || u == 0x3000
}

pub open spec fn is_digit(c: char) -> bool {
    48 <= c as u32 <= 57
}

pub open spec fn is_ident_start(c: char) -> bool {
    let u = c as u32;
    (65 <= u <= 90) || (97 <= u <= 122) || u == 95
}

pub open spec fn is_ident_char(c: char) -> bool {
    is_ident_start(c) || is_digit(c)
}

/// What is left of `s` from position `i` on; the measure of every parse.
pub open spec fn left(s: Seq<char>, i: int) -> nat {
    if i < s.len() {
        (s.len() - i) as nat
    } else {
        0
    }
}

pub open spec fn at(s: Seq<char>, i: int, c: char) -> bool {
    0 <= i < s.len() && s[i] == c
}

pub open spec fn starts_with(s: Seq<char>, i: int, word: Seq<char>) -> bool {
    0 <= i && i + word.len() <= s.len() && s.subrange(i, i + word.len()) == word
}

/// The number of whitespace characters from position `i` on.
pub open spec fn ws_len(s: Seq<char>, i: int) -> nat
    decreases left(s, i),
{
    if 0 <= i < s.len() && is_space(s[i]) {
        1 + ws_len(s, i + 1)
    } else {
        0
    }
}

/// The number of decimal digits from position `i` on.
pub open spec fn digit_len(s: Seq<char>, i: int) -> nat
    decreases left(s, i),
{
    if 0 <= i < s.len() && is_digit(s[i]) {
        1 + digit_len(s, i + 1)
    } else {
        0
    }
}

/// The number of identifier characters from position `i` on.
pub open spec fn ident_len(s: Seq<char>, i: int) -> nat
    decreases left(s, i),
{
    if 0 <= i < s.len() && is_ident_char(s[i]) {
        1 + ident_len(s, i + 1)
    } else {
        0
    }
}

pub open spec fn digit_value(c: char) -> nat {
    ((c as u32) - 48) as nat
}

/// The value of a run of decimal digits.
pub open spec fn digits_value(d: Seq<char>) -> nat
    decreases d.len(),
{
    if d.len() == 0 {
        0
    } else {
        digits_value(d.drop_last()) * 10 + digit_value(d.last())
    }
}

pub open spec fn kw_let() -> Seq<char> {
    seq!['l', 'e', 't']
}

pub open spec fn kw_if() -> Seq<char> {
    seq!['i', 'f']
}

pub open spec fn kw_else() -> Seq<char> {
    seq!['e', 'l', 's', 'e']
}

pub open spec fn kw_while() -> Seq<char> {
    seq!['w', 'h', 'i', 'l', 'e']
}

pub open spec fn kw_i32() -> Seq<char> {
    seq!['i', '3', '2']
}

/// Adds `by` characters to what a successful parse consumed.
pub open spec fn shift(r: Parsed, by: int) -> Parsed {
    match r {
        Ok((t, n)) => Ok((t, (n + by) as nat)),
        Err(e) => Err(e),
    }
}

pub open spec fn bin(op: BinOp, l: Tree, r: Tree) -> Tree {
    Tree::Bin(op, Box::new(l), Box::new(r))
}

/// Identifier := [A-Za-z_][A-Za-z0-9_]*
pub open spec fn identifier(s: Seq<char>, i: int) -> Parsed {
    let j = i + ws_len(s, i);
    if 0 <= j < s.len() && is_ident_start(s[j]) {
        let n = ident_len(s, j);
        Ok((Tree::Ident(s.subrange(j, j + n)), (j + n - i) as nat))
    } else {
        Err(ParseError::Expected(Expected::Identifier))
    }
}

/// Type := 'i32'; the result is the number of characters consumed.
pub open spec fn var_type(s: Seq<char>, i: int) -> Result<nat, ParseError> {
    let j = i + ws_len(s, i);
    if starts_with(s, j, kw_i32()) {
        Ok((j + 3 - i) as nat)
    } else {
        Err(ParseError::Expected(Expected::Type))
    }
}

/// The binary operator of precedence `level` at position `i`, with its
/// length; `level` 0 is `||`, 1 `&&`, 2 the comparisons, 3 `+ -`, 4 `* /`.
pub open spec fn op_at(level: nat, s: Seq<char>, i: int) -> Option<Result<(BinOp, nat), ParseError>> {
    if level == 0 {
        if at(s, i, '|') {
            if at(s, i + 1, '|') {
                Some(Ok((BinOp::Or, 2)))
            } else {
                Some(Err(ParseError::Expected(Expected::DoubleBar)))
            }
        } else {
            None
        }
    } else if level == 1 {
        if at(s, i, '&') {
            if at(s, i + 1, '&') {
                Some(Ok((BinOp::And, 2)))
            } else {
                Some(Err(ParseError::Expected(Expected::DoubleAmpersand)))
            }
        } else {
            None
        }
    } else if level == 2 {
        if at(s, i, '<') {
            if at(s, i + 1, '=') {
                Some(Ok((BinOp::Le, 2)))
            } else {
                Some(Ok((BinOp::Lt, 1)))
            }
        } else if at(s, i, '>') {
            if at(s, i + 1, '=') {
                Some(Ok((BinOp::Ge, 2)))
            } else {
                Some(Ok((BinOp::Gt, 1)))
            }
        } else {
            None
        }
    } else if level == 3 {
        if at(s, i, '+') {
            Some(Ok((BinOp::Add, 1)))
        } else if at(s, i, '-') {
            Some(Ok((BinOp::Sub, 1)))
        } else {
            None
        }
    } else {
        if at(s, i, '*') {
            Some(Ok((BinOp::Mul, 1)))
        } else if at(s, i, '/') {
            Some(Ok((BinOp::Div, 1)))
        } else {
            None
        }
    }
}

pub open spec fn rank(level: nat) -> int {
    if level >= 4 {
        7
    } else {
        15 - 2 * level
    }
}

/// Instruction := Declaration | Block | If | While | Or
pub open spec fn instruction(s: Seq<char>, i: int) -> Parsed
    decreases left(s, i), 16int,
{
    let j = i + ws_len(s, i);
    if starts_with(s, j, kw_let()) {
        declaration(s, i)
    } else if at(s, j, '{') {
        block(s, i)
    } else if starts_with(s, j, kw_if()) {
        if_else(s, i)
    } else if starts_with(s, j, kw_while()) {
        while_loop(s, i)
    } else {
        binary(0, s, i)
    }
}

/// Declaration := 'let' Identifier ':' Type ['=' Or] ';'
/// Without an initializer the variable is assigned 0.
pub open spec fn declaration(s: Seq<char>, i: int) -> Parsed
    decreases left(s, i), 15int,
{
    let j = i + ws_len(s, i);
    if !starts_with(s, j, kw_let()) {
        Err(ParseError::Expected(Expected::Let))
    } else {
        match identifier(s, j + 3) {
            Err(e) => Err(e),
            Ok((name, n)) => {
                let k = j + 3 + n;
                let c = k + ws_len(s, k);
                if !at(s, c, ':') {
                    Err(ParseError::Expected(Expected::Colon))
                } else {
                    match var_type(s, c + 1) {
                        Err(e) => Err(e),
                        Ok(tn) => {
                            let e = c + 1 + tn + ws_len(s, c + 1 + tn);
                            if at(s, e, '=') {
                                match binary(0, s, e + 1) {
                                    Err(err) => Err(err),
                                    Ok((v, m)) => {
                                        let f = e + 1 + m;
                                        let g = f + ws_len(s, f);
                                        if at(s, g, ';') {
                                            Ok((bin(BinOp::Assign, name, v), (g + 1 - i) as nat))
                                        } else {
                                            Err(ParseError::Expected(Expected::Semicolon))
                                        }
                                    },
                                }
                            } else if at(s, e, ';') {
                                Ok((bin(BinOp::Assign, name, Tree::Int(0)), (e + 1 - i) as nat))
                            } else {
                                Err(ParseError::Expected(Expected::Semicolon))
                            }
                        },
                    }
                }
            },
        }
    }
}

/// Block := '{' Instruction* '}'
pub open spec fn block(s: Seq<char>, i: int) -> Parsed
    decreases left(s, i), 15int,
{
    let j = i + ws_len(s, i);
    if !at(s, j, '{') {
        Err(ParseError::Expected(Expected::OpenBrace))
    } else {
        shift(block_items(s, j + 1, Seq::empty()), j + 1 - i)
    }
}

/// The statements of a block from position `p` on, after those in `acc`,
/// through the closing brace.
pub open spec fn block_items(s: Seq<char>, p: int, acc: Seq<Tree>) -> Parsed
    decreases left(s, p), 17int,
{
    let q = p + ws_len(s, p);
    if !(0 <= q < s.len()) {
        Err(ParseError::Expected(Expected::CloseBrace))
    } else if s[q] == '}' {
        Ok((Tree::Block(acc), (q + 1 - p) as nat))
    } else {
        match instruction(s, q) {
            Err(e) => Err(e),
            Ok((t, n)) => {
                // a statement always consumes input; the test keeps the definition total
                if n > 0 {
                    shift(block_items(s, q + n, acc.push(t)), q + n - p)
                } else {
                    Err(ParseError::Expected(Expected::CloseBrace))
                }
            },
        }
    }
}

/// If := 'if' Or Block ['else' Block]
pub open spec fn if_else(s: Seq<char>, i: int) -> Parsed
    decreases left(s, i), 15int,
{
    let j = i + ws_len(s, i);
    if !starts_with(s, j, kw_if()) {
        Err(ParseError::Expected(Expected::If))
    } else {
        match binary(0, s, j + 2) {
            Err(e) => Err(e),
            Ok((c, n)) => {
                let k = j + 2 + n;
                match block(s, k) {
                    Err(e) => Err(e),
                    Ok((b, m)) => {
                        let e = k + m;
                        let f = e + ws_len(s, e);
                        if starts_with(s, f, kw_else()) {
                            match block(s, f + 4) {
                                Err(err) => Err(err),
                                Ok((o, r)) => Ok(
                                    (
                                        Tree::If(Box::new(c), Box::new(b), Some(Box::new(o))),
                                        (f + 4 + r - i) as nat,
                                    ),
                                ),
                            }
                        } else {
                            Ok((Tree::If(Box::new(c), Box::new(b), None), (f - i) as nat))
                        }
                    },
                }
            },
        }
    }
}

/// While := 'while' Or Block
pub open spec fn while_loop(s: Seq<char>, i: int) -> Parsed
    decreases left(s, i), 15int,
{
    let j = i + ws_len(s, i);
    if !starts_with(s, j, kw_while()) {
        Err(ParseError::Expected(Expected::While))
    } else {
        match binary(0, s, j + 5) {
            Err(e) => Err(e),
            Ok((c, n)) => {
                let k = j + 5 + n;
                match block(s, k) {
                    Err(e) => Err(e),
                    Ok((b, m)) => Ok((Tree::While(Box::new(c), Box::new(b)), (k + m - i) as nat)),
                }
            },
        }
    }
}

/// The operators of `level` folded to the left over operands of the next
/// level; trailing whitespace is consumed.
pub open spec fn binary(level: nat, s: Seq<char>, i: int) -> Parsed
    decreases left(s, i), rank(level),
{
    match operand(level, s, i) {
        Err(e) => Err(e),
        Ok((t, n)) => {
            let k = i + n;
            let p = k + ws_len(s, k);
            shift(binary_tail(level, s, t, p), p - i)
        },
    }
}

/// An operand of the operators of `level`.
pub open spec fn operand(level: nat, s: Seq<char>, i: int) -> Parsed
    decreases left(s, i), rank(level) - 1,
{
    if level >= 4 {
        not(s, i)
    } else {
        binary(level + 1, s, i)
    }
}

/// Folds further `op operand` pairs of `level` onto `acc`, from position `p`.
pub open spec fn binary_tail(level: nat, s: Seq<char>, acc: Tree, p: int) -> Parsed
    decreases left(s, p), 0int,
{
    match op_at(level, s, p) {
        None => Ok((acc, 0)),
        Some(Err(e)) => Err(e),
        Some(Ok((op, w))) => match operand(level, s, p + w) {
            Err(e) => Err(e),
            Ok((r, n)) => {
                let k = p + w + n;
                let q = k + ws_len(s, k);
                shift(binary_tail(level, s, bin(op, acc, r), q), q - p)
            },
        },
    }
}

/// Not := '!' Factor | Factor
pub open spec fn not(s: Seq<char>, i: int) -> Parsed
    decreases left(s, i), 5int,
{
    let j = i + ws_len(s, i);
    if at(s, j, '!') {
        match factor(s, j + 1) {
            Err(e) => Err(e),
            Ok((t, n)) => Ok((Tree::Not(Box::new(t)), (j + 1 + n - i) as nat)),
        }
    } else {
        factor(s, i)
    }
}

/// Factor := '(' Instruction ')' | IntegerLiteral | Identifier
pub open spec fn factor(s: Seq<char>, i: int) -> Parsed
    decreases left(s, i), 4int,
{
    let j = i + ws_len(s, i);
    if at(s, j, '(') {
        match instruction(s, j + 1) {
            Err(e) => Err(e),
            Ok((t, n)) => {
                let k = j + 1 + n;
                let m = k + ws_len(s, k);
                if at(s, m, ')') {
                    Ok((t, (m + 1 - i) as nat))
                } else {
                    Err(ParseError::Expected(Expected::CloseParen))
                }
            },
        }
    } else if 0 <= j < s.len() && is_digit(s[j]) {
        let n = digit_len(s, j);
        let v = digits_value(s.subrange(j, j + n));
        if v <= i32::MAX {
            Ok((Tree::Int(v as i32), (j + n - i) as nat))
        } else {
            Err(ParseError::IntegerOutOfRange)
        }
    } else {
        identifier(s, i)
    }
}

/// A group opened by `(` whose contents parse but are not followed by `)`
/// fails as a whole, naming the missing `)`: no tree, not even the
/// contents', comes back.
pub proof fn lemma_unclosed_group(s: Seq<char>)
    requires
        s.len() > 0,
        s[0] == '(',
        instruction(s, 1) is Ok,
        ({
            let k = 1 + instruction(s, 1)->Ok_0.1 as int;
            !at(s, k + ws_len(s, k), ')')
        }),
    ensures
        factor(s, 0) == Parsed::Err(ParseError::Expected(Expected::CloseParen)),
{
    assert(ws_len(s, 0) == 0);
}

} // verus!
