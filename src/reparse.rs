//! Re-parsing rendered trees.

use vstd::prelude::*;
use crate::ast::{decimal, digit_char, digits, render_tree, Tree};
use crate::grammar::{
    at, binary, binary_tail, block, block_items, declaration, digit_len, digit_value, digits_value,
    factor, identifier, ident_len, if_else, instruction, is_digit, is_ident_char, is_ident_start,
    is_space, left, not, op_at, operand, rank, while_loop, ws_len, Parsed,
};

verus! {

/// A name that the identifier rule accepts whole.
pub open spec fn valid_ident(n: Seq<char>) -> bool {
    n.len() > 0 && is_ident_start(n[0]) && forall|k: int| 0 <= k < n.len() ==> #[trigger] is_ident_char(n[k])
}

/// A leaf that a parse can produce: a non-negative literal or a valid name.
pub open spec fn leaf_ok(t: Tree) -> bool {
    match t {
        Tree::Int(v) => v >= 0,
        Tree::Ident(n) => valid_ident(n),
        _ => true,
    }
}

pub open spec fn is_leaf(t: Tree) -> bool {
    t is Int || t is Ident
}

pub open spec fn parsed_ok(p: Parsed) -> bool {
    match p {
        Ok((t, _)) => leaf_ok(t),
        Err(_) => true,
    }
}

proof fn lemma_ident_run(s: Seq<char>, i: int)
    requires
        0 <= i <= s.len(),
    ensures
        i + ident_len(s, i) <= s.len(),
        forall|k: int| i <= k < i + ident_len(s, i) ==> #[trigger] is_ident_char(s[k]),
    decreases s.len() - i,
{
    if i < s.len() && is_ident_char(s[i]) {
        lemma_ident_run(s, i + 1);
    }
}

proof fn lemma_ws_bound(s: Seq<char>, i: int)
    requires
        0 <= i <= s.len(),
    ensures
        i + ws_len(s, i) <= s.len(),
    decreases s.len() - i,
{
    if i < s.len() {
        lemma_ws_bound(s, i + 1);
    }
}

proof fn lemma_identifier_ok(s: Seq<char>, i: int)
    requires
        0 <= i <= s.len(),
    ensures
        parsed_ok(identifier(s, i)),
{
    let j = i + ws_len(s, i);
    lemma_ws_bound(s, i);
    if 0 <= j < s.len() && is_ident_start(s[j]) {
        lemma_ident_run(s, j);
        let n = s.subrange(j, j + ident_len(s, j));
        assert forall|k: int| 0 <= k < n.len() implies #[trigger] is_ident_char(n[k]) by {
            assert(is_ident_char(s[j + k]));
        }
    }
}

proof fn lemma_items_block(s: Seq<char>, p: int, acc: Seq<Tree>)
    ensures
        block_items(s, p, acc) matches Ok((t, _)) ==> t is Block,
    decreases left(s, p),
{
    let q = p + ws_len(s, p);
    if 0 <= q < s.len() && s[q] != '}' {
        if let Ok((t, n)) = instruction(s, q) {
            if n > 0 {
                lemma_items_block(s, q + n, acc.push(t));
            }
        }
    }
}

proof fn lemma_instruction_ok(s: Seq<char>, i: int)
    requires
        0 <= i <= s.len(),
    ensures
        parsed_ok(instruction(s, i)),
    decreases left(s, i), 16int,
{
    let j = i + ws_len(s, i);
    lemma_ws_bound(s, i);
    if crate::grammar::starts_with(s, j, crate::grammar::kw_let()) {
    } else if at(s, j, '{') {
        lemma_items_block(s, j + 1, Seq::empty());
    } else if crate::grammar::starts_with(s, j, crate::grammar::kw_if()) {
    } else if crate::grammar::starts_with(s, j, crate::grammar::kw_while()) {
    } else {
        lemma_binary_ok(0, s, i);
    }
}

proof fn lemma_binary_ok(level: nat, s: Seq<char>, i: int)
    requires
        0 <= i <= s.len(),
    ensures
        parsed_ok(binary(level, s, i)),
    decreases left(s, i), rank(level),
{
    lemma_operand_ok(level, s, i);
    if let Ok((t, n)) = operand(level, s, i) {
        let k = i + n;
        let p = k + ws_len(s, k);
        lemma_tail_ok(level, s, t, p);
    }
}

proof fn lemma_operand_ok(level: nat, s: Seq<char>, i: int)
    requires
        0 <= i <= s.len(),
    ensures
        parsed_ok(operand(level, s, i)),
    decreases left(s, i), rank(level) - 1,
{
    if level >= 4 {
        lemma_not_ok(s, i);
    } else {
        lemma_binary_ok(level + 1, s, i);
    }
}

proof fn lemma_tail_ok(level: nat, s: Seq<char>, acc: Tree, p: int)
    requires
        leaf_ok(acc),
    ensures
        parsed_ok(binary_tail(level, s, acc, p)),
    decreases left(s, p), 0int,
{
    if let Some(Ok((op, w))) = op_at(level, s, p) {
        if let Ok((r, n)) = operand(level, s, p + w) {
            let k = p + w + n;
            let q = k + ws_len(s, k);
            lemma_tail_ok(level, s, crate::grammar::bin(op, acc, r), q);
        }
    }
}

proof fn lemma_not_ok(s: Seq<char>, i: int)
    requires
        0 <= i <= s.len(),
    ensures
        parsed_ok(not(s, i)),
    decreases left(s, i), 5int,
{
    let j = i + ws_len(s, i);
    if !at(s, j, '!') {
        lemma_factor_ok(s, i);
    }
}

proof fn lemma_factor_ok(s: Seq<char>, i: int)
    requires
        0 <= i <= s.len(),
    ensures
        parsed_ok(factor(s, i)),
    decreases left(s, i), 4int,
{
    let j = i + ws_len(s, i);
    lemma_ws_bound(s, i);
    if at(s, j, '(') {
        lemma_instruction_ok(s, j + 1);
    } else if 0 <= j < s.len() && is_digit(s[j]) {
    } else {
        lemma_identifier_ok(s, i);
    }
}

proof fn lemma_ident_len_full(r: Seq<char>, k: int)
    requires
        0 <= k <= r.len(),
        forall|m: int| 0 <= m < r.len() ==> #[trigger] is_ident_char(r[m]),
    ensures
        ident_len(r, k) == r.len() - k,
    decreases r.len() - k,
{
    if k < r.len() {
        lemma_ident_len_full(r, k + 1);
    }
}

proof fn lemma_digit_len_full(r: Seq<char>, k: int)
    requires
        0 <= k <= r.len(),
        forall|m: int| 0 <= m < r.len() ==> #[trigger] is_digit(r[m]),
    ensures
        digit_len(r, k) == r.len() - k,
    decreases r.len() - k,
{
    if k < r.len() {
        lemma_digit_len_full(r, k + 1);
    }
}

/// The decimal digits of `v` are digits, and read back as `v`.
proof fn lemma_digits(v: nat)
    ensures
        digits(v).len() > 0,
        forall|m: int| 0 <= m < digits(v).len() ==> #[trigger] is_digit(digits(v)[m]),
        digits_value(digits(v)) == v,
    decreases v,
{
    let d = digit_char(v % 10);
    assert(digit_value(d) == v % 10);
    assert(digits(v).last() == d);
    if v < 10 {
        assert(digits(v).drop_last() =~= Seq::<char>::empty());
        assert(digits_value(Seq::<char>::empty()) == 0);
        assert(digits_value(digits(v)) == digits_value(digits(v).drop_last()) * 10 + digit_value(d));
    } else {
        lemma_digits(v / 10);
        assert(digits(v).drop_last() =~= digits(v / 10));
        assert(v == (v / 10) * 10 + v % 10) by {
            vstd::arithmetic::div_mod::lemma_fundamental_div_mod(v as int, 10);
        }
        assert(digits_value(digits(v)) == digits_value(digits(v / 10)) * 10 + digit_value(d));
    }
}

/// A parse at the `||` level whose whole input is a leaf of the `Not` level.
proof fn lemma_lift(level: nat, r: Seq<char>, t: Tree)
    requires
        level <= 4,
        r.len() > 0,
        not(r, 0) == Parsed::Ok((t, r.len())),
    ensures
        binary(level, r, 0) == Parsed::Ok((t, r.len())),
    decreases 4 - level,
{
    if level < 4 {
        lemma_lift(level + 1, r, t);
    }
    assert(operand(level, r, 0) == Parsed::Ok((t, r.len())));
    assert(ws_len(r, r.len() as int) == 0);
    assert(op_at(level, r, r.len() as int) is None);
    assert(binary_tail(level, r, t, r.len() as int) == Parsed::Ok((t, 0)));
}

/// Parsing the rendering of a leaf that a parse produced gives that leaf
/// back, consuming the whole rendering.
proof fn lemma_leaf_reparses(t: Tree)
    requires
        is_leaf(t),
        leaf_ok(t),
    ensures
        render_tree(t).len() > 0,
        binary(0, render_tree(t), 0) == Parsed::Ok((t, render_tree(t).len())),
{
    let r = render_tree(t);
    match t {
        Tree::Ident(n) => {
            assert(r == n);
            lemma_ident_len_full(r, 0);
            assert(!is_space(r[0]));
            assert(ws_len(r, 0) == 0);
            assert(r.subrange(0, r.len() as int) =~= r);
            assert(identifier(r, 0) == Parsed::Ok((t, r.len())));
            assert(!is_digit(r[0]));
            assert(factor(r, 0) == Parsed::Ok((t, r.len())));
            assert(not(r, 0) == Parsed::Ok((t, r.len())));
        },
        Tree::Int(v) => {
            lemma_digits(v as nat);
            assert(r == digits(v as nat));
            assert(decimal(v as int) == digits(v as nat));
            lemma_digit_len_full(r, 0);
            assert(is_digit(r[0]));
            assert(!is_space(r[0]));
            assert(ws_len(r, 0) == 0);
            assert(r.subrange(0, r.len() as int) =~= r);
            assert(factor(r, 0) == Parsed::Ok((t, r.len())));
            assert(not(r, 0) == Parsed::Ok((t, r.len())));
        },
        _ => {},
    }
    lemma_lift(0, r, t);
}

/// Rendering is stable under re-parsing for expressions whose parse is a
/// leaf: parsing the rendering of what `s` parses to at the `||` level gives
/// a tree with the same rendering, and consumes the rendering whole. A tree
/// with an operator renders as `Name(...)`, which reads back as the name
/// alone, so the law holds of leaves only.
pub proof fn lemma_render_reparse_stable(s: Seq<char>)
    requires
        binary(0, s, 0) is Ok,
        is_leaf(binary(0, s, 0)->Ok_0.0),
    ensures
        ({
            let t = binary(0, s, 0)->Ok_0.0;
            let r = render_tree(t);
            &&& binary(0, r, 0) is Ok
            &&& render_tree(binary(0, r, 0)->Ok_0.0) == r
            &&& binary(0, r, 0)->Ok_0.1 == r.len()
        }),
{
    lemma_binary_ok(0, s, 0);
    lemma_leaf_reparses(binary(0, s, 0)->Ok_0.0);
}

} // verus!
