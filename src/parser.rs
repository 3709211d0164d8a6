//! The recursive-descent parser, one entry point per grammar rule, each
//! proved to yield what the grammar yields.

use vstd::prelude::*;
use crate::ast::{
    AstNode, BinOp, Block as AstBlock, Identifier as AstIdentifier, If as AstIf, Tree,
    While as AstWhile, trees_of,
};
use crate::cursor::{is_digit_char, is_ident_start_char, Source};
use crate::grammar;
use crate::grammar::{
    at, bin, digit_value, digits_value, is_digit, kw_else, kw_i32, kw_if, kw_let, kw_while, left,
    op_at, rank, shift, Expected, ParseError, Parsed,
};

verus! {

broadcast use crate::cursor::lemma_source_len;

/// The one type that a declaration can name.
#[derive(Clone, Copy, PartialEq, Eq, Structural, Debug)]
pub enum Type {
    I32,
}

/// `r`, a node and the position after it, is the parse `p` that started at `i`.
pub open spec fn agrees(r: Result<(AstNode, usize), ParseError>, p: Parsed, i: int) -> bool {
    match r {
        Ok((node, k)) => i <= k && p == Parsed::Ok((node@, (k - i) as nat)),
        Err(e) => p == Parsed::Err(e),
    }
}

/// `r` ends past `i` and within `len` characters.
pub open spec fn advances(r: Result<(AstNode, usize), ParseError>, i: int, len: int) -> bool {
    match r {
        Ok((_, k)) => i < k <= len,
        Err(_) => true,
    }
}

proof fn lemma_digits_value_prefix(d: Seq<char>, m: int)
    requires
        0 <= m <= d.len(),
    ensures
        digits_value(d.subrange(0, m)) <= digits_value(d),
    decreases d.len(),
{
    if m < d.len() {
        lemma_digits_value_prefix(d.drop_last(), m);
        assert(d.drop_last().subrange(0, m) =~= d.subrange(0, m));
    } else {
        assert(d.subrange(0, m) =~= d);
    }
}

proof fn lemma_digit_len_bound(s: Seq<char>, i: int)
    requires
        0 <= i <= s.len(),
    ensures
        i + grammar::digit_len(s, i) <= s.len(),
    decreases s.len() - i,
{
    if i < s.len() {
        lemma_digit_len_bound(s, i + 1);
    }
}

/// Type := 'i32'
pub fn parse_type(src: &Source, i: usize) -> (r: Result<(Type, usize), ParseError>)
    requires
        src.wf(),
        i <= src@.len(),
    ensures
        match r {
            Ok((_, k)) => grammar::var_type(src@, i as int) == Ok::<nat, ParseError>(
                (k - i) as nat,
            ) && i < k <= src@.len(),
            Err(e) => grammar::var_type(src@, i as int) == Err::<nat, ParseError>(e),
        },
{
    let j = src.skip_ws(i);
    let word = ['i', '3', '2'];
    assert(word@ =~= kw_i32());
    if src.has_word(j, &word) {
        Ok((Type::I32, j + 3))
    } else {
        Err(ParseError::Expected(Expected::Type))
    }
}

/// Identifier := [A-Za-z_][A-Za-z0-9_]*
fn parse_identifier(src: &Source, i: usize) -> (r: Result<(AstNode, usize), ParseError>)
    requires
        src.wf(),
        i <= src@.len(),
    ensures
        agrees(r, grammar::identifier(src@, i as int), i as int),
        advances(r, i as int, src@.len() as int),
{
    let j = src.skip_ws(i);
    if j < src.len() && is_ident_start_char(src.get(j)) {
        let k = src.ident_end(j);
        let name = src.slice(j, k);
        Ok((AstNode::Identifier(AstIdentifier { name }), k))
    } else {
        Err(ParseError::Expected(Expected::Identifier))
    }
}

/// Factor := '(' Instruction ')' | IntegerLiteral | Identifier
fn parse_factor(src: &Source, i: usize) -> (r: Result<(AstNode, usize), ParseError>)
    requires
        src.wf(),
        i <= src@.len(),
    ensures
        agrees(r, grammar::factor(src@, i as int), i as int),
        advances(r, i as int, src@.len() as int),
    decreases left(src@, i as int), 4int,
{
    let ghost s = src@;
    let j = src.skip_ws(i);
    if src.at(j, '(') {
        match parse_instruction(src, j + 1) {
            Err(e) => Err(e),
            Ok((t, k)) => {
                let m = src.skip_ws(k);
                if src.at(m, ')') {
                    Ok((t, m + 1))
                } else {
                    Err(ParseError::Expected(Expected::CloseParen))
                }
            },
        }
    } else if j < src.len() && is_digit_char(src.get(j)) {
        let mut k = j;
        let mut v: u64 = 0;
        while k < src.len() && is_digit_char(src.get(k))
            invariant
                src.wf(),
                s == src@,
                j <= k <= s.len(),
                j == i + grammar::ws_len(s, i as int),
                j < s.len() && is_digit(s[j as int]) && !at(s, j as int, '('),
                grammar::digit_len(s, j as int) == (k - j) + grammar::digit_len(s, k as int),
                v == digits_value(s.subrange(j as int, k as int)),
                v <= i32::MAX,
            decreases s.len() - k,
        {
            let d = src.get(k);
            v = v * 10 + (d as u32 - 48) as u64;
            assert(s.subrange(j as int, k + 1).drop_last() =~= s.subrange(j as int, k as int));
            assert(s.subrange(j as int, k + 1).last() == d);
            assert(v == digits_value(s.subrange(j as int, k + 1)));
            if v > i32::MAX as u64 {
                proof {
                    lemma_digit_len_bound(s, k + 1);
                    let run = s.subrange(j as int, j + grammar::digit_len(s, j as int));
                    lemma_digits_value_prefix(run, k + 1 - j);
                    assert(run.subrange(0, k + 1 - j) =~= s.subrange(j as int, k + 1));
                }
                return Err(ParseError::IntegerOutOfRange);
            }
            k = k + 1;
        }
        Ok((AstNode::integer(v as i32), k))
    } else {
        parse_identifier(src, i)
    }
}

/// Not := '!' Factor | Factor
fn parse_not(src: &Source, i: usize) -> (r: Result<(AstNode, usize), ParseError>)
    requires
        src.wf(),
        i <= src@.len(),
    ensures
        agrees(r, grammar::not(src@, i as int), i as int),
        advances(r, i as int, src@.len() as int),
    decreases left(src@, i as int), 5int,
{
    let j = src.skip_ws(i);
    if src.at(j, '!') {
        match parse_factor(src, j + 1) {
            Err(e) => Err(e),
            Ok((t, k)) => Ok((AstNode::not(t), k)),
        }
    } else {
        parse_factor(src, i)
    }
}

/// The operator of precedence `level` at `p`, with its length.
fn scan_op(level: u32, src: &Source, p: usize) -> (r: Option<Result<(BinOp, usize), ParseError>>)
    requires
        src.wf(),
        level <= 4,
    ensures
        match r {
            None => op_at(level as nat, src@, p as int) is None,
            Some(Err(e)) => op_at(level as nat, src@, p as int) == Some(
                Err::<(BinOp, nat), ParseError>(e),
            ),
            Some(Ok((op, w))) => op_at(level as nat, src@, p as int) == Some(
                Ok::<(BinOp, nat), ParseError>((op, w as nat)),
            ) && p + w <= src@.len(),
        },
{
    if level == 0 {
        if src.at(p, '|') {
            if src.at(p + 1, '|') {
                Some(Ok((BinOp::Or, 2)))
            } else {
                Some(Err(ParseError::Expected(Expected::DoubleBar)))
            }
        } else {
            None
        }
    } else if level == 1 {
        if src.at(p, '&') {
            if src.at(p + 1, '&') {
                Some(Ok((BinOp::And, 2)))
            } else {
                Some(Err(ParseError::Expected(Expected::DoubleAmpersand)))
            }
        } else {
            None
        }
    } else if level == 2 {
        if src.at(p, '<') {
            if src.at(p + 1, '=') {
                Some(Ok((BinOp::Le, 2)))
            } else {
                Some(Ok((BinOp::Lt, 1)))
            }
        } else if src.at(p, '>') {
            if src.at(p + 1, '=') {
                Some(Ok((BinOp::Ge, 2)))
            } else {
                Some(Ok((BinOp::Gt, 1)))
            }
        } else {
            None
        }
    } else if level == 3 {
        if src.at(p, '+') {
            Some(Ok((BinOp::Add, 1)))
        } else if src.at(p, '-') {
            Some(Ok((BinOp::Sub, 1)))
        } else {
            None
        }
    } else {
        if src.at(p, '*') {
            Some(Ok((BinOp::Mul, 1)))
        } else if src.at(p, '/') {
            Some(Ok((BinOp::Div, 1)))
        } else {
            None
        }
    }
}

/// An operand of the operators of `level`.
fn parse_operand(level: u32, src: &Source, i: usize) -> (r: Result<(AstNode, usize), ParseError>)
    requires
        src.wf(),
        i <= src@.len(),
        level <= 4,
    ensures
        agrees(r, grammar::operand(level as nat, src@, i as int), i as int),
        advances(r, i as int, src@.len() as int),
    decreases left(src@, i as int), rank(level as nat) - 1,
{
    if level >= 4 {
        parse_not(src, i)
    } else {
        parse_binary_op(level + 1, src, i)
    }
}

/// The operators of precedence `level` (0 is `||`, 1 `&&`, 2 the
/// comparisons, 3 `+ -`, 4 `* /`), folded to the left over operands of the
/// next level; trailing whitespace is consumed.
pub fn parse_binary_op(level: u32, src: &Source, i: usize) -> (r: Result<(AstNode, usize), ParseError>)
    requires
        src.wf(),
        i <= src@.len(),
        level <= 4,
    ensures
        agrees(r, grammar::binary(level as nat, src@, i as int), i as int),
        advances(r, i as int, src@.len() as int),
    decreases left(src@, i as int), rank(level as nat),
{
    let ghost s = src@;
    let (first, k) = match parse_operand(level, src, i) {
        Err(e) => return Err(e),
        Ok(x) => x,
    };
    let mut acc = first;
    let mut p = src.skip_ws(k);
    loop
        invariant
            src.wf(),
            s == src@,
            level <= 4,
            i < p <= s.len(),
            grammar::binary(level as nat, s, i as int) == shift(
                grammar::binary_tail(level as nat, s, acc@, p as int),
                p - i,
            ),
        decreases s.len() - p,
    {
        match scan_op(level, src, p) {
            None => {
                return Ok((acc, p));
            },
            Some(Err(e)) => {
                return Err(e);
            },
            Some(Ok((op, w))) => {
                match parse_operand(level, src, p + w) {
                    Err(e) => {
                        return Err(e);
                    },
                    Ok((right, k2)) => {
                        let q = src.skip_ws(k2);
                        let ghost old_acc = acc@;
                        acc = AstNode::binary(op, acc, right);
                        assert(acc@ == bin(op, old_acc, right@));
                        p = q;
                    },
                }
            },
        }
    }
}

/// Block := '{' Instruction* '}'
fn parse_block(src: &Source, i: usize) -> (r: Result<(AstNode, usize), ParseError>)
    requires
        src.wf(),
        i <= src@.len(),
    ensures
        agrees(r, grammar::block(src@, i as int), i as int),
        advances(r, i as int, src@.len() as int),
    decreases left(src@, i as int), 15int,
{
    let ghost s = src@;
    let j = src.skip_ws(i);
    if !src.at(j, '{') {
        return Err(ParseError::Expected(Expected::OpenBrace));
    }
    let mut block = AstBlock::new();
    let mut p = j + 1;
    loop
        invariant
            src.wf(),
            s == src@,
            j < p <= s.len(),
            j == i + grammar::ws_len(s, i as int),
            grammar::block(s, i as int) == shift(
                grammar::block_items(s, p as int, trees_of(block.nodes@)),
                p - i,
            ),
        decreases s.len() - p,
    {
        let q = src.skip_ws(p);
        if q >= src.len() {
            return Err(ParseError::Expected(Expected::CloseBrace));
        }
        if src.get(q) == '}' {
            return Ok((AstNode::Block(block), q + 1));
        }
        match parse_instruction(src, q) {
            Err(e) => {
                return Err(e);
            },
            Ok((t, k)) => {
                block.add_node(t);
                p = k;
            },
        }
    }
}

/// If := 'if' Or Block ['else' Block]
fn parse_if(src: &Source, i: usize) -> (r: Result<(AstNode, usize), ParseError>)
    requires
        src.wf(),
        i <= src@.len(),
    ensures
        agrees(r, grammar::if_else(src@, i as int), i as int),
        advances(r, i as int, src@.len() as int),
    decreases left(src@, i as int), 15int,
{
    let j = src.skip_ws(i);
    let word = ['i', 'f'];
    assert(word@ =~= kw_if());
    if !src.has_word(j, &word) {
        return Err(ParseError::Expected(Expected::If));
    }
    let (cond, k) = match parse_binary_op(0, src, j + 2) {
        Err(e) => return Err(e),
        Ok(x) => x,
    };
    let (then_block, e) = match parse_block(src, k) {
        Err(err) => return Err(err),
        Ok(x) => x,
    };
    let f = src.skip_ws(e);
    let word = ['e', 'l', 's', 'e'];
    assert(word@ =~= kw_else());
    if src.has_word(f, &word) {
        match parse_block(src, f + 4) {
            Err(err) => Err(err),
            Ok((o, m)) => Ok((AstIf::new(cond, then_block, Some(o)), m)),
        }
    } else {
        Ok((AstIf::new(cond, then_block, None), f))
    }
}

/// While := 'while' Or Block
fn parse_while(src: &Source, i: usize) -> (r: Result<(AstNode, usize), ParseError>)
    requires
        src.wf(),
        i <= src@.len(),
    ensures
        agrees(r, grammar::while_loop(src@, i as int), i as int),
        advances(r, i as int, src@.len() as int),
    decreases left(src@, i as int), 15int,
{
    let j = src.skip_ws(i);
    let word = ['w', 'h', 'i', 'l', 'e'];
    assert(word@ =~= kw_while());
    if !src.has_word(j, &word) {
        return Err(ParseError::Expected(Expected::While));
    }
    let (cond, k) = match parse_binary_op(0, src, j + 5) {
        Err(e) => return Err(e),
        Ok(x) => x,
    };
    match parse_block(src, k) {
        Err(err) => Err(err),
        Ok((body, m)) => Ok((AstWhile::new(cond, body), m)),
    }
}

/// Declaration := 'let' Identifier ':' Type ['=' Or] ';'
#[verifier::rlimit(40)]
fn parse_declaration(src: &Source, i: usize) -> (r: Result<(AstNode, usize), ParseError>)
    requires
        src.wf(),
        i <= src@.len(),
    ensures
        agrees(r, grammar::declaration(src@, i as int), i as int),
        advances(r, i as int, src@.len() as int),
    decreases left(src@, i as int), 15int,
{
    let j = src.skip_ws(i);
    let word = ['l', 'e', 't'];
    assert(word@ =~= kw_let());
    if !src.has_word(j, &word) {
        return Err(ParseError::Expected(Expected::Let));
    }
    let (name, k) = match parse_identifier(src, j + 3) {
        Err(e) => return Err(e),
        Ok(x) => x,
    };
    let c = src.skip_ws(k);
    if !src.at(c, ':') {
        return Err(ParseError::Expected(Expected::Colon));
    }
    let tn = match parse_type(src, c + 1) {
        Err(e) => return Err(e),
        Ok((Type::I32, t)) => t,
    };
    let e = src.skip_ws(tn);
    if src.at(e, '=') {
        let (value, f) = match parse_binary_op(0, src, e + 1) {
            Err(err) => return Err(err),
            Ok(x) => x,
        };
        let g = src.skip_ws(f);
        if src.at(g, ';') {
            Ok((AstNode::binary(BinOp::Assign, name, value), g + 1))
        } else {
            Err(ParseError::Expected(Expected::Semicolon))
        }
    } else if src.at(e, ';') {
        Ok((AstNode::binary(BinOp::Assign, name, AstNode::integer(0)), e + 1))
    } else {
        Err(ParseError::Expected(Expected::Semicolon))
    }
}

/// Instruction := Declaration | Block | If | While | Or
fn parse_instruction(src: &Source, i: usize) -> (r: Result<(AstNode, usize), ParseError>)
    requires
        src.wf(),
        i <= src@.len(),
    ensures
        agrees(r, grammar::instruction(src@, i as int), i as int),
        advances(r, i as int, src@.len() as int),
    decreases left(src@, i as int), 16int,
{
    let j = src.skip_ws(i);
    let let_word = ['l', 'e', 't'];
    let if_word = ['i', 'f'];
    let while_word = ['w', 'h', 'i', 'l', 'e'];
    assert(let_word@ =~= kw_let());
    assert(if_word@ =~= kw_if());
    assert(while_word@ =~= kw_while());
    if src.has_word(j, &let_word) {
        parse_declaration(src, i)
    } else if src.at(j, '{') {
        parse_block(src, i)
    } else if src.has_word(j, &if_word) {
        parse_if(src, i)
    } else if src.has_word(j, &while_word) {
        parse_while(src, i)
    } else {
        parse_binary_op(0, src, i)
    }
}

/// `r` reports the parse `p` of `s` from its start: the tree, and the text
/// after what was consumed; or the same error.
pub open spec fn outcome(r: Result<(AstNode, String), ParseError>, s: Seq<char>, p: Parsed) -> bool {
    match p {
        Ok((t, n)) => match r {
            Ok((node, rest)) => node@ == t && rest@ == s.subrange(n as int, s.len() as int),
            Err(_) => false,
        },
        Err(e) => match r {
            Ok(_) => false,
            Err(e2) => e2 == e,
        },
    }
}

fn finish(src: &Source, r: Result<(AstNode, usize), ParseError>, Ghost(p): Ghost<Parsed>) -> (out:
    Result<(AstNode, String), ParseError>)
    requires
        src.wf(),
        agrees(r, p, 0),
        advances(r, 0, src@.len() as int),
    ensures
        outcome(out, src@, p),
{
    match r {
        Ok((node, k)) => {
            let rest = src.slice(k, src.len());
            Ok((node, rest))
        },
        Err(e) => Err(e),
    }
}

/// <or> := <and> ('||' <and>)*
pub struct Or;

impl Or {
    pub fn parse(string: String) -> (r: Result<(AstNode, String), ParseError>)
        ensures
            outcome(r, string@, grammar::binary(0, string@, 0)),
    {
        let src = Source::new(string);
        let res = parse_binary_op(0, &src, 0);
        finish(&src, res, Ghost(grammar::binary(0, src@, 0)))
    }
}

/// <and> := <relation> ('&&' <relation>)*
pub struct And;

impl And {
    pub fn parse(string: String) -> (r: Result<(AstNode, String), ParseError>)
        ensures
            outcome(r, string@, grammar::binary(1, string@, 0)),
    {
        let src = Source::new(string);
        let res = parse_binary_op(1, &src, 0);
        finish(&src, res, Ghost(grammar::binary(1, src@, 0)))
    }
}

/// <relation> := <expression> (('<' | '>' | '<=' | '>=') <expression>)*
pub struct Relation;

impl Relation {
    pub fn parse(string: String) -> (r: Result<(AstNode, String), ParseError>)
        ensures
            outcome(r, string@, grammar::binary(2, string@, 0)),
    {
        let src = Source::new(string);
        let res = parse_binary_op(2, &src, 0);
        finish(&src, res, Ghost(grammar::binary(2, src@, 0)))
    }
}

/// <expression> := <term> (('+' | '-') <term>)*
pub struct Expression;

impl Expression {
    pub fn parse(string: String) -> (r: Result<(AstNode, String), ParseError>)
        ensures
            outcome(r, string@, grammar::binary(3, string@, 0)),
    {
        let src = Source::new(string);
        let res = parse_binary_op(3, &src, 0);
        finish(&src, res, Ghost(grammar::binary(3, src@, 0)))
    }
}

/// <term> := <not> (('*' | '/') <not>)*
pub struct Term;

impl Term {
    pub fn parse(string: String) -> (r: Result<(AstNode, String), ParseError>)
        ensures
            outcome(r, string@, grammar::binary(4, string@, 0)),
    {
        let src = Source::new(string);
        let res = parse_binary_op(4, &src, 0);
        finish(&src, res, Ghost(grammar::binary(4, src@, 0)))
    }
}

/// <not> := '!' <factor> | <factor>
pub struct Not;

impl Not {
    pub fn parse(string: String) -> (r: Result<(AstNode, String), ParseError>)
        ensures
            outcome(r, string@, grammar::not(string@, 0)),
    {
        let src = Source::new(string);
        let res = parse_not(&src, 0);
        finish(&src, res, Ghost(grammar::not(src@, 0)))
    }
}

/// <factor> := '(' <instruction> ')' | <integer> | <identifier>
pub struct Factor;

impl Factor {
    pub fn parse(string: String) -> (r: Result<(AstNode, String), ParseError>)
        ensures
            outcome(r, string@, grammar::factor(string@, 0)),
    {
        let src = Source::new(string);
        let res = parse_factor(&src, 0);
        finish(&src, res, Ghost(grammar::factor(src@, 0)))
    }
}

/// <identifier> := [A-Za-z_][A-Za-z0-9_]*
pub struct Identifier;

impl Identifier {
    pub fn parse(string: String) -> (r: Result<(AstNode, String), ParseError>)
        ensures
            outcome(r, string@, grammar::identifier(string@, 0)),
    {
        let src = Source::new(string);
        let res = parse_identifier(&src, 0);
        finish(&src, res, Ghost(grammar::identifier(src@, 0)))
    }
}

/// <declaration> := 'let' <identifier> ':' <type> ['=' <or>] ';'
pub struct Declaration;

impl Declaration {
    pub fn parse(string: String) -> (r: Result<(AstNode, String), ParseError>)
        ensures
            outcome(r, string@, grammar::declaration(string@, 0)),
    {
        let src = Source::new(string);
        let res = parse_declaration(&src, 0);
        finish(&src, res, Ghost(grammar::declaration(src@, 0)))
    }
}

/// <block> := '{' <instruction>* '}'
pub struct Block;

impl Block {
    pub fn parse(string: String) -> (r: Result<(AstNode, String), ParseError>)
        ensures
            outcome(r, string@, grammar::block(string@, 0)),
    {
        let src = Source::new(string);
        let res = parse_block(&src, 0);
        finish(&src, res, Ghost(grammar::block(src@, 0)))
    }
}

/// <if> := 'if' <or> <block> ['else' <block>]
pub struct If;

impl If {
    pub fn parse(string: String) -> (r: Result<(AstNode, String), ParseError>)
        ensures
            outcome(r, string@, grammar::if_else(string@, 0)),
    {
        let src = Source::new(string);
        let res = parse_if(&src, 0);
        finish(&src, res, Ghost(grammar::if_else(src@, 0)))
    }
}

/// <while> := 'while' <or> <block>
pub struct While;

impl While {
    pub fn parse(string: String) -> (r: Result<(AstNode, String), ParseError>)
        ensures
            outcome(r, string@, grammar::while_loop(string@, 0)),
    {
        let src = Source::new(string);
        let res = parse_while(&src, 0);
        finish(&src, res, Ghost(grammar::while_loop(src@, 0)))
    }
}

/// <instruction> := <declaration> | <block> | <if> | <while> | <or>
pub struct Instruction;

impl Instruction {
    pub fn parse(string: String) -> (r: Result<(AstNode, String), ParseError>)
        ensures
            outcome(r, string@, grammar::instruction(string@, 0)),
    {
        let src = Source::new(string);
        let res = parse_instruction(&src, 0);
        finish(&src, res, Ghost(grammar::instruction(src@, 0)))
    }
}

/// Where a whole input starts: one statement.
pub type Start = Instruction;

} // verus!
