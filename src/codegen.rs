//! The code generator: a visitor that emits IR for one `main` function
//! using an operand stack and a stack of open blocks.

use vstd::prelude::*;
use crate::ast::{
    AstNode, BinOp, Block as AstBlock, Tree, trees_of, lemma_trees_of, tree_of,
};

verus! {

/// A value an instruction reads: a constant, or the result of the
/// instruction at `index` of block `block`.
#[derive(Clone, Copy, PartialEq, Eq, Structural, Debug)]
pub enum Operand {
    Const(i32),
    Value(usize, usize),
}

/// An IR instruction over 32-bit signed integers.
///
/// `Binary` with an arithmetic operator wraps on overflow and divides
/// signed (a zero divisor is left to the target); a comparison, `And` or
/// `Or` yields 1 or 0, taking any nonzero operand as true. `Not` yields 1
/// for 0 and 0 otherwise. Variables live in numbered slots: `Alloca`
/// creates one, `Store` writes it, `Load` reads it. `Ret` ends the function.
#[derive(Clone, Copy, PartialEq, Eq, Structural, Debug)]
pub enum Instr {
    Binary(BinOp, Operand, Operand),
    Not(Operand),
    Alloca(usize),
    Store(usize, Operand),
    Load(usize),
    Ret(Operand),
}

/// Why generation failed.
#[derive(Clone, Copy, PartialEq, Eq, Structural, Debug)]
pub enum GenError {
    /// An operation found fewer values on the operand stack than it needs.
    StackUnderflow,
    /// An instruction was due and no block is open, or the open block is full.
    NoInsertionPoint,
    /// A variable is read before anything was stored in it.
    UndefinedVariable,
    /// The target of an assignment is not a variable.
    InvalidAssignmentTarget,
}

/// The model of a generator: its operand stack, the instructions of each
/// block of the `main` function, the stack of open blocks (by index), and
/// the names of the variable slots.
pub struct GenState {
    pub values: Seq<Operand>,
    pub blocks: Seq<Seq<Instr>>,
    pub cursor: Seq<int>,
    pub slots: Seq<Seq<char>>,
}

/// Whether later instructions can read a value of `ins`.
pub open spec fn has_value(ins: Instr) -> bool {
    ins is Binary || ins is Not || ins is Load
}

/// Position `(bb, ii)` comes before `(b, i)`, blocks laid out in order.
pub open spec fn before(bb: int, ii: int, b: int, i: int) -> bool {
    bb < b || (bb == b && ii < i)
}

/// `o` is a constant, or the value of an instruction before `(b, i)`.
pub open spec fn operand_ready(o: Operand, blocks: Seq<Seq<Instr>>, b: int, i: int) -> bool {
    match o {
        Operand::Const(_) => true,
        Operand::Value(bb, ii) => before(bb as int, ii as int, b, i) && bb < blocks.len() && ii
            < blocks[bb as int].len() && has_value(blocks[bb as int][ii as int]),
    }
}

/// Slot `k` is created by an `Alloca` before `(b, i)`.
pub open spec fn allocated(k: usize, blocks: Seq<Seq<Instr>>, b: int, i: int) -> bool {
    exists|bb: int, ii: int|
        #![trigger blocks[bb][ii]]
        before(bb, ii, b, i) && 0 <= bb < blocks.len() && 0 <= ii < blocks[bb].len() && blocks[bb][ii]
            == Instr::Alloca(k)
}

/// `ins`, at `(b, i)`, reads only what exists by then, among `nslots` slots.
pub open spec fn instr_ready(ins: Instr, blocks: Seq<Seq<Instr>>, b: int, i: int, nslots: nat) -> bool {
    match ins {
        Instr::Binary(op, l, r) => op != BinOp::Assign && operand_ready(l, blocks, b, i)
            && operand_ready(r, blocks, b, i),
        Instr::Not(x) => operand_ready(x, blocks, b, i),
        Instr::Alloca(k) => k < nslots,
        Instr::Store(k, v) => k < nslots && allocated(k, blocks, b, i) && operand_ready(v, blocks, b, i),
        Instr::Load(k) => k < nslots && allocated(k, blocks, b, i),
        Instr::Ret(v) => operand_ready(v, blocks, b, i),
    }
}

/// Every instruction of `blocks` reads only values and slots made before it.
pub open spec fn ir_valid(blocks: Seq<Seq<Instr>>, nslots: nat) -> bool {
    forall|b: int, i: int|
        0 <= b < blocks.len() && 0 <= i < blocks[b].len() ==> instr_ready(
            #[trigger] blocks[b][i],
            blocks,
            b,
            i,
            nslots,
        )
}

/// A generator state whose IR is valid and stays so: all code goes to the
/// entry block, every value on the operand stack and every slot is made by
/// an instruction already there.
pub open spec fn state_ok(g: GenState) -> bool {
    let end = g.blocks[0].len() as int;
    &&& g.blocks.len() >= 1
    &&& ir_valid(g.blocks, g.slots.len())
    &&& forall|j: int| 0 <= j < g.cursor.len() ==> #[trigger] g.cursor[j] == 0
    &&& forall|j: int| 0 <= j < g.values.len() ==> operand_ready(#[trigger] g.values[j], g.blocks, 0, end)
    &&& forall|k: int| 0 <= k < g.slots.len() ==> #[trigger] allocated(k as usize, g.blocks, 0, end)
}

pub proof fn lemma_initial_ok()
    ensures
        state_ok(initial_state()),
{
}

/// Appending a ready instruction keeps the IR valid, and what was ready at
/// the old end stays ready at the new one.
proof fn lemma_emit_ok(g: GenState, ins: Instr, n: nat)
    requires
        state_ok(g),
        can_emit(g),
        g.slots.len() <= n,
        instr_ready(ins, g.blocks, 0, g.blocks[0].len() as int, n),
    ensures
        ({
            let e = emit(g, ins);
            let end = g.blocks[0].len() as int;
            &&& e.blocks.len() == g.blocks.len()
            &&& e.blocks[0].len() == end + 1
            &&& e.blocks[0][end] == ins
            &&& ir_valid(e.blocks, n)
            &&& forall|o: Operand| operand_ready(o, g.blocks, 0, end) ==> operand_ready(o, e.blocks, 0, end + 1)
            &&& forall|k: usize| allocated(k, g.blocks, 0, end) ==> allocated(k, e.blocks, 0, end + 1)
        }),
{
    let e = emit(g, ins);
    let end = g.blocks[0].len() as int;
    assert(g.cursor[g.cursor.len() - 1] == 0);
    assert(forall|bb: int, ii: int| 0 <= bb < g.blocks.len() && 0 <= ii < g.blocks[bb].len() ==> e.blocks[bb][ii] == g.blocks[bb][ii]);
    assert forall|o: Operand| operand_ready(o, g.blocks, 0, end) implies operand_ready(o, e.blocks, 0, end + 1) by {}
    assert forall|k: usize| allocated(k, g.blocks, 0, end) implies allocated(k, e.blocks, 0, end + 1) by {
        let (bb, ii) = choose|bb: int, ii: int| #![trigger g.blocks[bb][ii]] before(bb, ii, 0, end) && 0 <= bb < g.blocks.len() && 0 <= ii < g.blocks[bb].len() && g.blocks[bb][ii] == Instr::Alloca(k);
        assert(e.blocks[bb][ii] == Instr::Alloca(k));
    }
    assert forall|b: int, i: int| 0 <= b < e.blocks.len() && 0 <= i < e.blocks[b].len() implies instr_ready(
        #[trigger] e.blocks[b][i], e.blocks, b, i, n) by {
        if b == 0 && i == end {
            lemma_ready_grows(ins, g.blocks, e.blocks, 0, end, n, n);
        } else {
            assert(e.blocks[b][i] == g.blocks[b][i]);
            assert(instr_ready(g.blocks[b][i], g.blocks, b, i, g.slots.len()));
            lemma_ready_grows(g.blocks[b][i], g.blocks, e.blocks, b, i, g.slots.len(), n);
        }
    }
}

/// What is ready at `(b, i)` stays ready when instructions after it are added.
proof fn lemma_ready_grows(ins: Instr, bs: Seq<Seq<Instr>>, cs: Seq<Seq<Instr>>, b: int, i: int, n: nat, m: nat)
    requires
        instr_ready(ins, bs, b, i, n),
        n <= m,
        bs.len() == cs.len(),
        forall|bb: int| 0 <= bb < bs.len() ==> #[trigger] bs[bb].len() <= cs[bb].len(),
        forall|bb: int, ii: int| 0 <= bb < bs.len() && 0 <= ii < bs[bb].len() ==> cs[bb][ii] == #[trigger] bs[bb][ii],
    ensures
        instr_ready(ins, cs, b, i, m),
{
    assert forall|o: Operand| operand_ready(o, bs, b, i) implies operand_ready(o, cs, b, i) by {
        if let Operand::Value(bb, ii) = o {
            assert(cs[bb as int][ii as int] == bs[bb as int][ii as int]);
        }
    }
    assert forall|k: usize| allocated(k, bs, b, i) implies allocated(k, cs, b, i) by {
        let (bb, ii) = choose|bb: int, ii: int| #![trigger bs[bb][ii]] before(bb, ii, b, i) && 0 <= bb < bs.len() && 0 <= ii < bs[bb].len() && bs[bb][ii] == Instr::Alloca(k);
        assert(cs[bb][ii] == Instr::Alloca(k));
    }
}

/// Emitting a ready instruction with a value, and pushing that value.
proof fn lemma_emit_value_ok(g: GenState, ins: Instr)
    requires
        state_ok(g),
        can_emit(g),
        has_value(ins),
        instr_ready(ins, g.blocks, 0, g.blocks[0].len() as int, g.slots.len()),
    ensures
        state_ok(emit_value(g, ins)),
{
    lemma_emit_ok(g, ins, g.slots.len());
    let e = emit_value(g, ins);
    let end = g.blocks[0].len() as int;
    assert(g.cursor[g.cursor.len() - 1] == 0);
    assert(next_value(g) == Operand::Value(0, end as usize));
    assert forall|j: int| 0 <= j < e.values.len() implies operand_ready(#[trigger] e.values[j], e.blocks, 0, end + 1) by {
        if j < g.values.len() {
            assert(e.values[j] == g.values[j]);
            assert(operand_ready(g.values[j], g.blocks, 0, end));
        }
    }
    assert forall|k: int| 0 <= k < e.slots.len() implies #[trigger] allocated(k as usize, e.blocks, 0, end + 1) by {
        assert(allocated(k as usize, g.blocks, 0, end));
    }
}

/// Emitting a ready instruction whose value nothing reads.
proof fn lemma_emit_plain_ok(g: GenState, ins: Instr)
    requires
        state_ok(g),
        can_emit(g),
        instr_ready(ins, g.blocks, 0, g.blocks[0].len() as int, g.slots.len()),
    ensures
        state_ok(emit(g, ins)),
{
    lemma_emit_ok(g, ins, g.slots.len());
    let e = emit(g, ins);
    let end = g.blocks[0].len() as int;
    assert forall|j: int| 0 <= j < e.values.len() implies operand_ready(#[trigger] e.values[j], e.blocks, 0, end + 1) by {
        assert(operand_ready(g.values[j], g.blocks, 0, end));
    }
    assert forall|k: int| 0 <= k < e.slots.len() implies #[trigger] allocated(k as usize, e.blocks, 0, end + 1) by {
        assert(allocated(k as usize, g.blocks, 0, end));
    }
}

proof fn lemma_pop_ok(g: GenState, n: int)
    requires
        state_ok(g),
        0 <= n <= g.values.len(),
    ensures
        state_ok(GenState { values: g.values.subrange(0, g.values.len() - n), ..g }),
{
    let p = GenState { values: g.values.subrange(0, g.values.len() - n), ..g };
    assert forall|j: int| 0 <= j < p.values.len() implies operand_ready(#[trigger] p.values[j], p.blocks, 0, p.blocks[0].len() as int) by {
        assert(p.values[j] == g.values[j]);
    }
}

proof fn lemma_store_ok(name: Seq<char>, g: GenState)
    requires
        state_ok(g),
    ensures
        store(name, g) matches Ok(g2) ==> state_ok(g2),
{
    if g.values.len() >= 1 && can_emit(g) {
        let v = g.values.last();
        let end = g.blocks[0].len() as int;
        assert(operand_ready(g.values[g.values.len() - 1], g.blocks, 0, end));
        lemma_find_slot(g.slots, name);
        match find_slot(g.slots, name) {
            Some(k) => {
                assert(allocated(k as int as usize, g.blocks, 0, end));
                lemma_emit_plain_ok(g, Instr::Store(k as usize, v));
            },
            None => {
                let k = g.slots.len();
                let g1 = GenState { slots: g.slots.push(name), ..g };
                lemma_emit_ok(g, Instr::Alloca(k as usize), k + 1);
                let g2 = emit(g1, Instr::Alloca(k as usize));
                assert(g2.blocks == emit(g, Instr::Alloca(k as usize)).blocks);
                assert(g.cursor[g.cursor.len() - 1] == 0);
                assert(g2.blocks[0][end] == Instr::Alloca(k as usize));
                assert forall|j: int| 0 <= j < g2.values.len() implies operand_ready(#[trigger] g2.values[j], g2.blocks, 0, end + 1) by {
                    assert(operand_ready(g.values[j], g.blocks, 0, end));
                }
                assert forall|m: int| 0 <= m < g2.slots.len() implies #[trigger] allocated(m as usize, g2.blocks, 0, end + 1) by {
                    if m < k {
                        assert(allocated(m as usize, g.blocks, 0, end));
                    } else {
                        assert(before(0, end, 0, end + 1));
                        assert(g2.blocks[0][end] == Instr::Alloca(m as usize));
                    }
                }
                assert(state_ok(g2));
                assert(allocated(k as usize, g2.blocks, 0, end + 1));
                if can_emit(g2) {
                    lemma_emit_plain_ok(g2, Instr::Store(k as usize, v));
                }
            },
        }
    }
}

/// Generation from a state whose IR is valid keeps it valid.
pub proof fn lemma_gen_keeps_ir_valid(t: Tree, g: GenState)
    requires
        state_ok(g),
    ensures
        gen(t, g) matches Ok(g2) ==> state_ok(g2),
    decreases t,
{
    let end = g.blocks[0].len() as int;
    match t {
        Tree::Int(v) => {
            let g2 = GenState { values: g.values.push(Operand::Const(v)), ..g };
            assert forall|j: int| 0 <= j < g2.values.len() implies operand_ready(#[trigger] g2.values[j], g2.blocks, 0, end) by {
                if j < g.values.len() {
                    assert(g2.values[j] == g.values[j]);
                }
            }
        },
        Tree::Ident(name) => {
            lemma_find_slot(g.slots, name);
            if let Some(k) = find_slot(g.slots, name) {
                if can_emit(g) {
                    assert(allocated(k as int as usize, g.blocks, 0, end));
                    lemma_emit_value_ok(g, Instr::Load(k as usize));
                }
            }
        },
        Tree::Bin(op, l, r) => {
            if op == BinOp::Assign {
                if let Tree::Ident(name) = *l {
                    lemma_gen_keeps_ir_valid(*r, g);
                    if let Ok(g1) = gen(*r, g) {
                        lemma_store_ok(name, g1);
                    }
                }
            } else {
                lemma_gen_keeps_ir_valid(*l, g);
                if let Ok(g1) = gen(*l, g) {
                    lemma_gen_keeps_ir_valid(*r, g1);
                    if let Ok(g2) = gen(*r, g1) {
                        if g2.values.len() >= 2 && can_emit(g2) {
                            let e2 = g2.blocks[0].len() as int;
                            let m = g2.values.len() as int;
                            assert(operand_ready(g2.values[m - 2], g2.blocks, 0, e2));
                            assert(operand_ready(g2.values[m - 1], g2.blocks, 0, e2));
                            lemma_pop_ok(g2, 2);
                            lemma_emit_value_ok(pop2(g2), Instr::Binary(op, g2.values[m - 2], g2.values[m - 1]));
                        }
                    }
                }
            }
        },
        Tree::Not(v) => {
            lemma_gen_keeps_ir_valid(*v, g);
            if let Ok(g1) = gen(*v, g) {
                if g1.values.len() >= 1 && can_emit(g1) {
                    let e1 = g1.blocks[0].len() as int;
                    assert(operand_ready(g1.values[g1.values.len() - 1], g1.blocks, 0, e1));
                    lemma_pop_ok(g1, 1);
                    assert(pop1(g1).values =~= g1.values.subrange(0, g1.values.len() - 1));
                    lemma_emit_value_ok(pop1(g1), Instr::Not(g1.values.last()));
                }
            }
        },
        Tree::Block(ts) => lemma_gen_all_keeps_ir_valid(ts, g),
        Tree::If(c, th, e) => {
            lemma_gen_keeps_ir_valid(*c, g);
            if let Ok(g1) = gen(*c, g) {
                lemma_gen_keeps_ir_valid(*th, g1);
                if let Ok(g2) = gen(*th, g1) {
                    if let Some(e) = e {
                        lemma_gen_keeps_ir_valid(*e, g2);
                    }
                }
            }
        },
        Tree::While(c, b) => {
            lemma_gen_keeps_ir_valid(*c, g);
            if let Ok(g1) = gen(*c, g) {
                lemma_gen_keeps_ir_valid(*b, g1);
            }
        },
    }
}

pub proof fn lemma_gen_all_keeps_ir_valid(ts: Seq<Tree>, g: GenState)
    requires
        state_ok(g),
    ensures
        gen_all(ts, g) matches Ok(g2) ==> state_ok(g2),
    decreases ts,
{
    if ts.len() > 0 {
        let init = ts.subrange(0, ts.len() - 1);
        lemma_gen_all_keeps_ir_valid(init, g);
        if let Ok(g1) = gen_all(init, g) {
            lemma_gen_keeps_ir_valid(ts[ts.len() - 1], g1);
        }
    }
}

/// Sealing keeps the IR valid.
pub proof fn lemma_finalize_keeps_ir_valid(g: GenState)
    requires
        state_ok(g),
    ensures
        finalize_state(g) matches Ok(f) ==> state_ok(f),
{
    if can_emit(g) && g.values.len() > 0 {
        let end = g.blocks[0].len() as int;
        assert(operand_ready(g.values[g.values.len() - 1], g.blocks, 0, end));
        lemma_emit_plain_ok(g, Instr::Ret(g.values.last()));
        let e = emit(g, Instr::Ret(g.values.last()));
        let f = finalize_state(g)->Ok_0;
        assert forall|j: int| 0 <= j < f.values.len() implies operand_ready(#[trigger] f.values[j], f.blocks, 0, end + 1) by {
            assert(f.values[j] == e.values[j]);
        }
        assert forall|j: int| 0 <= j < f.cursor.len() implies #[trigger] f.cursor[j] == 0 by {
            assert(f.cursor[j] == g.cursor[j]);
        }
    }
}

/// The IR that a fresh generator emits for any tree, before and after
/// sealing, reads only values and slots made before each instruction; so
/// lowering it to LLVM can fail only in LLVM's builder.
pub proof fn lemma_generated_ir_valid(t: Tree)
    ensures
        gen(t, initial_state()) matches Ok(g) ==> ir_valid(g.blocks, g.slots.len()) && (
        finalize_state(g) matches Ok(f) ==> ir_valid(f.blocks, f.slots.len())),
{
    lemma_initial_ok();
    lemma_gen_keeps_ir_valid(t, initial_state());
    if let Ok(g) = gen(t, initial_state()) {
        lemma_finalize_keeps_ir_valid(g);
    }
}

/// `h` holds every instruction of `g`, in place: blocks only grow at their ends.
pub open spec fn keeps(g: GenState, h: GenState) -> bool {
    &&& h.blocks.len() == g.blocks.len()
    &&& forall|b: int| 0 <= b < g.blocks.len() ==> (#[trigger] h.blocks[b]).len() >= g.blocks[b].len()
    &&& forall|b: int, i: int|
        0 <= b < g.blocks.len() && 0 <= i < g.blocks[b].len() ==> #[trigger] h.blocks[b][i]
            == g.blocks[b][i]
}

pub proof fn lemma_keeps_refl(g: GenState)
    ensures
        keeps(g, g),
{
}

pub proof fn lemma_keeps_trans(a: GenState, b: GenState, c: GenState)
    requires
        keeps(a, b),
        keeps(b, c),
    ensures
        keeps(a, c),
{
    assert forall|k: int, i: int| 0 <= k < a.blocks.len() && 0 <= i < a.blocks[k].len() implies #[trigger] c.blocks[k][i] == a.blocks[k][i] by {
        assert(b.blocks[k][i] == a.blocks[k][i]);
    }
}

proof fn lemma_emit_keeps(g: GenState, ins: Instr)
    requires
        can_emit(g),
    ensures
        keeps(g, emit(g, ins)),
{
    let e = emit(g, ins);
    assert forall|k: int, i: int| 0 <= k < g.blocks.len() && 0 <= i < g.blocks[k].len() implies #[trigger] e.blocks[k][i] == g.blocks[k][i] by {
        if k == g.cursor.last() {
            assert(e.blocks[k] == g.blocks[k].push(ins));
        }
    }
}

/// Generation only appends instructions: all that was emitted before stays.
pub proof fn lemma_gen_keeps(t: Tree, g: GenState)
    ensures
        gen(t, g) matches Ok(h) ==> keeps(g, h),
    decreases t,
{
    lemma_keeps_refl(g);
    match t {
        Tree::Int(_) => {},
        Tree::Ident(name) => {
            if can_emit(g) {
                lemma_emit_keeps(g, Instr::Load(0));
                assert forall|ins: Instr| keeps(g, emit(g, ins)) by {
                    lemma_emit_keeps(g, ins);
                }
            }
        },
        Tree::Bin(op, l, r) => {
            if op == BinOp::Assign {
                lemma_gen_keeps(*r, g);
                if let Ok(g1) = gen(*r, g) {
                    lemma_store_keeps(name_of(*l), g1);
                    if let Ok(h) = store(name_of(*l), g1) {
                        lemma_keeps_trans(g, g1, h);
                    }
                }
            } else {
                lemma_gen_keeps(*l, g);
                if let Ok(g1) = gen(*l, g) {
                    lemma_gen_keeps(*r, g1);
                    if let Ok(g2) = gen(*r, g1) {
                        lemma_keeps_trans(g, g1, g2);
                        if g2.values.len() >= 2 && can_emit(g2) {
                            let m = g2.values.len() as int;
                            lemma_emit_keeps(pop2(g2), Instr::Binary(op, g2.values[m - 2], g2.values[m - 1]));
                            lemma_keeps_trans(g, g2, emit(pop2(g2), Instr::Binary(op, g2.values[m - 2], g2.values[m - 1])));
                        }
                    }
                }
            }
        },
        Tree::Not(v) => {
            lemma_gen_keeps(*v, g);
            if let Ok(g1) = gen(*v, g) {
                if g1.values.len() >= 1 && can_emit(g1) {
                    lemma_emit_keeps(pop1(g1), Instr::Not(g1.values.last()));
                    lemma_keeps_trans(g, g1, emit(pop1(g1), Instr::Not(g1.values.last())));
                }
            }
        },
        Tree::Block(ts) => lemma_gen_all_keeps(ts, g),
        Tree::If(c, th, e) => {
            lemma_gen_keeps(*c, g);
            if let Ok(g1) = gen(*c, g) {
                lemma_gen_keeps(*th, g1);
                if let Ok(g2) = gen(*th, g1) {
                    lemma_keeps_trans(g, g1, g2);
                    if let Some(e) = e {
                        lemma_gen_keeps(*e, g2);
                        if let Ok(g3) = gen(*e, g2) {
                            lemma_keeps_trans(g, g2, g3);
                        }
                    }
                }
            }
        },
        Tree::While(c, b) => {
            lemma_gen_keeps(*c, g);
            if let Ok(g1) = gen(*c, g) {
                lemma_gen_keeps(*b, g1);
                if let Ok(g2) = gen(*b, g1) {
                    lemma_keeps_trans(g, g1, g2);
                }
            }
        },
    }
}

pub open spec fn name_of(t: Tree) -> Seq<char> {
    match t {
        Tree::Ident(n) => n,
        _ => Seq::empty(),
    }
}

proof fn lemma_store_keeps(name: Seq<char>, g: GenState)
    ensures
        store(name, g) matches Ok(h) ==> keeps(g, h),
{
    lemma_keeps_refl(g);
    if g.values.len() >= 1 && can_emit(g) {
        let v = g.values.last();
        match find_slot(g.slots, name) {
            Some(k) => lemma_emit_keeps(g, Instr::Store(k as usize, v)),
            None => {
                let k = g.slots.len();
                let g1 = GenState { slots: g.slots.push(name), ..g };
                lemma_emit_keeps(g1, Instr::Alloca(k as usize));
                let g2 = emit(g1, Instr::Alloca(k as usize));
                if can_emit(g2) {
                    lemma_emit_keeps(g2, Instr::Store(k as usize, v));
                    assert(keeps(g, g1));
                    lemma_keeps_trans(g1, g2, emit(g2, Instr::Store(k as usize, v)));
                    lemma_keeps_trans(g, g1, emit(g2, Instr::Store(k as usize, v)));
                }
            },
        }
    }
}

pub proof fn lemma_gen_all_keeps(ts: Seq<Tree>, g: GenState)
    ensures
        gen_all(ts, g) matches Ok(h) ==> keeps(g, h),
    decreases ts,
{
    lemma_keeps_refl(g);
    if ts.len() > 0 {
        let init = ts.subrange(0, ts.len() - 1);
        lemma_gen_all_keeps(init, g);
        if let Ok(g1) = gen_all(init, g) {
            lemma_gen_keeps(ts[ts.len() - 1], g1);
            if let Ok(h) = gen(ts[ts.len() - 1], g1) {
                lemma_keeps_trans(g, g1, h);
            }
        }
    }
}

/// `x` reduced to 32 bits, two's complement.
pub open spec fn wrap(x: int) -> i32 {
    let m = (x + 0x8000_0000) % 0x1_0000_0000;
    (m - 0x8000_0000) as i32
}

/// Signed division rounding toward zero.
pub open spec fn trunc_div(a: int, b: int) -> int {
    let q = (if a < 0 { -a } else { a }) / (if b < 0 { -b } else { b });
    if (a < 0) != (b < 0) { -q } else { q }
}

pub open spec fn truth_value(c: bool) -> i32 {
    if c { 1 } else { 0 }
}

/// What `Binary(op, ..)` computes from its operands' values; `None` where
/// the target leaves it undefined (a zero divisor, `i32::MIN / -1`).
pub open spec fn binary_value(op: BinOp, a: i32, b: i32) -> Option<i32> {
    match op {
        BinOp::Add => Some(wrap(a + b)),
        BinOp::Sub => Some(wrap(a - b)),
        BinOp::Mul => Some(wrap(a * b)),
        BinOp::Div => if b == 0 || (a == i32::MIN && b == -1) {
            None
        } else {
            Some(trunc_div(a as int, b as int) as i32)
        },
        BinOp::Lt => Some(truth_value(a < b)),
        BinOp::Gt => Some(truth_value(a > b)),
        BinOp::Le => Some(truth_value(a <= b)),
        BinOp::Ge => Some(truth_value(a >= b)),
        BinOp::And => Some(truth_value(a != 0 && b != 0)),
        BinOp::Or => Some(truth_value(a != 0 || b != 0)),
        BinOp::Assign => None,
    }
}

/// What `Not` computes: 1 for 0, else 0.
pub open spec fn not_value(a: i32) -> i32 {
    truth_value(a == 0)
}

/// The value that operand `o`, read by the instruction at `(b, i)`, has;
/// `None` if it is undefined or comes from memory.
pub open spec fn read(blocks: Seq<Seq<Instr>>, o: Operand, b: int, i: int) -> Option<i32>
    decreases b, i, 0int,
{
    match o {
        Operand::Const(v) => Some(v),
        Operand::Value(bb, ii) => if before(bb as int, ii as int, b, i) {
            value_at(blocks, bb as int, ii as int)
        } else {
            None
        },
    }
}

/// The value of the instruction at `(b, i)`, computed from its operands.
pub open spec fn value_at(blocks: Seq<Seq<Instr>>, b: int, i: int) -> Option<i32>
    decreases b, i, 1int,
{
    if 0 <= b < blocks.len() && 0 <= i < blocks[b].len() {
        match blocks[b][i] {
            Instr::Binary(op, l, r) => match (read(blocks, l, b, i), read(blocks, r, b, i)) {
                (Some(x), Some(y)) => binary_value(op, x, y),
                _ => None,
            },
            Instr::Not(x) => match read(blocks, x, b, i) {
                Some(v) => Some(not_value(v)),
                None => None,
            },
            _ => None,
        }
    } else {
        None
    }
}

/// The value of an expression over literals; `None` where undefined or
/// where it reads a variable.
pub open spec fn eval(t: Tree) -> Option<i32>
    decreases t,
{
    match t {
        Tree::Int(v) => Some(v),
        Tree::Bin(op, l, r) => match (eval(*l), eval(*r)) {
            (Some(x), Some(y)) => binary_value(op, x, y),
            _ => None,
        },
        Tree::Not(v) => match eval(*v) {
            Some(x) => Some(not_value(x)),
            None => None,
        },
        _ => None,
    }
}

/// Values of valid IR are unchanged when instructions are appended after them.
proof fn lemma_value_stable(bs: Seq<Seq<Instr>>, cs: Seq<Seq<Instr>>, n: nat, b: int, i: int)
    requires
        ir_valid(bs, n),
        bs.len() == cs.len(),
        forall|k: int| 0 <= k < bs.len() ==> (#[trigger] cs[k]).len() >= bs[k].len(),
        forall|k: int, j: int| 0 <= k < bs.len() && 0 <= j < bs[k].len() ==> #[trigger] cs[k][j] == bs[k][j],
        0 <= b < bs.len(),
        0 <= i < bs[b].len(),
    ensures
        value_at(bs, b, i) == value_at(cs, b, i),
    decreases b, i, 1int,
{
    assert(cs[b][i] == bs[b][i]);
    assert(instr_ready(bs[b][i], bs, b, i, n));
    match bs[b][i] {
        Instr::Binary(_, l, r) => {
            lemma_read_stable(bs, cs, n, l, b, i);
            lemma_read_stable(bs, cs, n, r, b, i);
        },
        Instr::Not(x) => lemma_read_stable(bs, cs, n, x, b, i),
        _ => {},
    }
}

proof fn lemma_read_stable(bs: Seq<Seq<Instr>>, cs: Seq<Seq<Instr>>, n: nat, o: Operand, b: int, i: int)
    requires
        ir_valid(bs, n),
        operand_ready(o, bs, b, i),
        bs.len() == cs.len(),
        forall|k: int| 0 <= k < bs.len() ==> (#[trigger] cs[k]).len() >= bs[k].len(),
        forall|k: int, j: int| 0 <= k < bs.len() && 0 <= j < bs[k].len() ==> #[trigger] cs[k][j] == bs[k][j],
    ensures
        read(bs, o, b, i) == read(cs, o, b, i),
    decreases b, i, 0int,
{
    if let Operand::Value(bb, ii) = o {
        lemma_value_stable(bs, cs, n, bb as int, ii as int);
    }
}

/// The value that `o` has for any later reader in block 0.
pub open spec fn top_value(g: GenState, o: Operand) -> Option<i32> {
    read(g.blocks, o, 0, g.blocks[0].len() as int)
}

/// Generating an expression leaves on top of the operand stack an operand
/// whose value, computed by the emitted instructions, is the expression's
/// value: arithmetic wraps, division is signed, comparisons, `&&`, `||`
/// and `!` give 1 or 0.
pub proof fn lemma_gen_computes(t: Tree, g: GenState)
    requires
        state_ok(g),
        is_expression(t),
    ensures
        gen(t, g) matches Ok(h) ==> h.values.len() > 0 && top_value(h, h.values.last()) == eval(t),
    decreases t,
{
    let e0 = g.blocks[0].len() as int;
    match t {
        Tree::Int(v) => {},
        Tree::Ident(name) => {
            if let Ok(h) = gen(t, g) {
                assert(can_emit(g));
                assert(g.cursor[g.cursor.len() - 1] == 0);
                assert(h.blocks[0][e0] is Load);
            }
        },
        Tree::Bin(op, l, r) => {
            lemma_gen_computes(*l, g);
            lemma_gen_keeps_ir_valid(*l, g);
            if let Ok(g1) = gen(*l, g) {
                lemma_gen_computes(*r, g1);
                lemma_gen_keeps_ir_valid(*r, g1);
                lemma_gen_keeps(*r, g1);
                if let Ok(g2) = gen(*r, g1) {
                    lemma_expression_leaves_one_value(*r, g1);
                    let e1 = g1.blocks[0].len() as int;
                    let e2 = g2.blocks[0].len() as int;
                    let m = g2.values.len() as int;
                    let o1 = g1.values.last();
                    let o2 = g2.values.last();
                    assert(g2.values.subrange(0, g1.values.len() as int) == g1.values);
                    assert(g2.values[m - 2] == g2.values.subrange(0, g1.values.len() as int)[m - 2]);
                    assert(g2.values[m - 2] == o1);
                    assert(operand_ready(g1.values[g1.values.len() - 1], g1.blocks, 0, e1));
                    lemma_read_stable(g1.blocks, g2.blocks, g1.slots.len(), o1, 0, e1);
                    if g2.values.len() >= 2 && can_emit(g2) {
                        assert(g2.cursor[g2.cursor.len() - 1] == 0);
                        let h = emit_value(pop2(g2), Instr::Binary(op, o1, o2));
                        assert(operand_ready(g2.values[m - 2], g2.blocks, 0, e2));
                        assert(operand_ready(g2.values[m - 1], g2.blocks, 0, e2));
                        lemma_emit_keeps(pop2(g2), Instr::Binary(op, o1, o2));
                        lemma_read_stable(g2.blocks, h.blocks, g2.slots.len(), o1, 0, e2);
                        lemma_read_stable(g2.blocks, h.blocks, g2.slots.len(), o2, 0, e2);
                        assert(h.blocks[0][e2] == Instr::Binary(op, o1, o2));
                        assert(h.values.last() == Operand::Value(0, e2 as usize));
                        assert(value_at(h.blocks, 0, e2) == eval(t));
                    }
                }
            }
        },
        Tree::Not(v) => {
            lemma_gen_computes(*v, g);
            lemma_gen_keeps_ir_valid(*v, g);
            if let Ok(g1) = gen(*v, g) {
                let e1 = g1.blocks[0].len() as int;
                let o = g1.values.last();
                if g1.values.len() >= 1 && can_emit(g1) {
                    assert(g1.cursor[g1.cursor.len() - 1] == 0);
                    let h = emit_value(pop1(g1), Instr::Not(o));
                    assert(operand_ready(g1.values[g1.values.len() - 1], g1.blocks, 0, e1));
                    lemma_emit_keeps(pop1(g1), Instr::Not(o));
                    lemma_read_stable(g1.blocks, h.blocks, g1.slots.len(), o, 0, e1);
                    assert(h.blocks[0][e1] == Instr::Not(o));
                    assert(value_at(h.blocks, 0, e1) == eval(t));
                }
            }
        },
        _ => {},
    }
}

/// A fresh generator: one empty entry block, open.
pub open spec fn initial_state() -> GenState {
    GenState {
        values: Seq::empty(),
        blocks: seq![Seq::empty()],
        cursor: seq![0int],
        slots: Seq::empty(),
    }
}

/// The slot that holds the variable `name`, the first one if several do.
pub open spec fn find_slot(slots: Seq<Seq<char>>, name: Seq<char>) -> Option<nat>
    decreases slots.len(),
{
    if slots.len() == 0 {
        None
    } else {
        match find_slot(slots.drop_last(), name) {
            Some(k) => Some(k),
            None => if slots.last() == name {
                Some((slots.len() - 1) as nat)
            } else {
                None
            },
        }
    }
}

/// A block is open, and it has room for one more instruction.
pub open spec fn can_emit(g: GenState) -> bool {
    g.cursor.len() > 0 && 0 <= g.cursor.last() < g.blocks.len() && g.blocks[g.cursor.last()].len()
        < usize::MAX
}

/// `g` with `ins` appended to the open block on top of the block stack.
pub open spec fn emit(g: GenState, ins: Instr) -> GenState {
    let b = g.cursor.last();
    GenState { blocks: g.blocks.update(b, g.blocks[b].push(ins)), ..g }
}

/// The operand that names the result of the next instruction emitted in `g`.
pub open spec fn next_value(g: GenState) -> Operand {
    let b = g.cursor.last();
    Operand::Value(b as usize, g.blocks[b].len() as usize)
}

/// `g` with `ins` emitted and its result pushed on the operand stack.
pub open spec fn emit_value(g: GenState, ins: Instr) -> GenState {
    let e = emit(g, ins);
    GenState { values: g.values.push(next_value(g)), ..e }
}

pub open spec fn pop2(g: GenState) -> GenState {
    GenState { values: g.values.subrange(0, g.values.len() - 2), ..g }
}

pub open spec fn pop1(g: GenState) -> GenState {
    GenState { values: g.values.drop_last(), ..g }
}

/// Reading the variable `name`: its value is loaded and pushed.
pub open spec fn load(name: Seq<char>, g: GenState) -> Result<GenState, GenError> {
    match find_slot(g.slots, name) {
        None => Err(GenError::UndefinedVariable),
        Some(k) => if can_emit(g) {
            Ok(emit_value(g, Instr::Load(k as usize)))
        } else {
            Err(GenError::NoInsertionPoint)
        },
    }
}

/// The two values on top of the stack, the right operand above the left,
/// replaced by the result of `op` on them.
pub open spec fn combine(op: BinOp, g: GenState) -> Result<GenState, GenError> {
    if g.values.len() < 2 {
        Err(GenError::StackUnderflow)
    } else if !can_emit(g) {
        Err(GenError::NoInsertionPoint)
    } else {
        let lv = g.values[g.values.len() - 2];
        let rv = g.values.last();
        Ok(emit_value(pop2(g), Instr::Binary(op, lv, rv)))
    }
}

/// The value on top of the stack replaced by its logical negation.
pub open spec fn negate(g: GenState) -> Result<GenState, GenError> {
    if g.values.len() < 1 {
        Err(GenError::StackUnderflow)
    } else if !can_emit(g) {
        Err(GenError::NoInsertionPoint)
    } else {
        Ok(emit_value(pop1(g), Instr::Not(g.values.last())))
    }
}

/// The value on top of the stack stored in the variable `name`, whose slot
/// is created on first use; the value stays on the stack.
pub open spec fn store(name: Seq<char>, g: GenState) -> Result<GenState, GenError> {
    if g.values.len() < 1 {
        Err(GenError::StackUnderflow)
    } else if !can_emit(g) {
        Err(GenError::NoInsertionPoint)
    } else {
        let v = g.values.last();
        match find_slot(g.slots, name) {
            Some(k) => Ok(emit(g, Instr::Store(k as usize, v))),
            None => {
                let k = g.slots.len();
                let g1 = emit(GenState { slots: g.slots.push(name), ..g }, Instr::Alloca(k as usize));
                if can_emit(g1) {
                    Ok(emit(g1, Instr::Store(k as usize, v)))
                } else {
                    Err(GenError::NoInsertionPoint)
                }
            },
        }
    }
}

/// Generation of `t` from state `g`: children first, left to right; each
/// expression leaves its value on the operand stack. Blocks, conditionals
/// and loops emit no branches: their parts are generated in sequence.
pub open spec fn gen(t: Tree, g: GenState) -> Result<GenState, GenError>
    decreases t,
{
    match t {
        Tree::Int(v) => Ok(GenState { values: g.values.push(Operand::Const(v)), ..g }),
        Tree::Ident(name) => load(name, g),
        Tree::Bin(op, l, r) => if op == BinOp::Assign {
            match *l {
                Tree::Ident(name) => match gen(*r, g) {
                    Err(e) => Err(e),
                    Ok(g1) => store(name, g1),
                },
                _ => Err(GenError::InvalidAssignmentTarget),
            }
        } else {
            match gen(*l, g) {
                Err(e) => Err(e),
                Ok(g1) => match gen(*r, g1) {
                    Err(e) => Err(e),
                    Ok(g2) => combine(op, g2),
                },
            }
        },
        Tree::Not(v) => match gen(*v, g) {
            Err(e) => Err(e),
            Ok(g1) => negate(g1),
        },
        Tree::Block(ts) => gen_all(ts, g),
        Tree::If(c, th, e) => match gen(*c, g) {
            Err(err) => Err(err),
            Ok(g1) => match gen(*th, g1) {
                Err(err) => Err(err),
                Ok(g2) => match e {
                    Some(e) => gen(*e, g2),
                    None => Ok(g2),
                },
            },
        },
        Tree::While(c, b) => match gen(*c, g) {
            Err(err) => Err(err),
            Ok(g1) => gen(*b, g1),
        },
    }
}

/// Generation of the statements `ts` in order.
pub open spec fn gen_all(ts: Seq<Tree>, g: GenState) -> Result<GenState, GenError>
    decreases ts,
{
    if ts.len() == 0 {
        Ok(g)
    } else {
        match gen_all(ts.subrange(0, ts.len() - 1), g) {
            Err(e) => Err(e),
            Ok(g1) => gen(ts[ts.len() - 1], g1),
        }
    }
}

/// An error in a prefix of the statements is the error of them all.
pub proof fn lemma_gen_all_err(ts: Seq<Tree>, n: int, g: GenState)
    requires
        0 <= n <= ts.len(),
        gen_all(ts.subrange(0, n), g) is Err,
    ensures
        gen_all(ts, g) == gen_all(ts.subrange(0, n), g),
    decreases ts.len(),
{
    if n < ts.len() {
        let init = ts.subrange(0, ts.len() - 1);
        assert(init.subrange(0, n) =~= ts.subrange(0, n));
        lemma_gen_all_err(init, n, g);
    } else {
        assert(ts.subrange(0, n) =~= ts);
    }
}

/// How many values generating `t` leaves on the operand stack: a leaf one;
/// an operator takes its operands' values and leaves one; an assignment
/// leaves the stored value; a statement container leaves those of its parts.
pub open spec fn pushes(t: Tree) -> nat
    decreases t,
{
    match t {
        Tree::Bin(op, l, r) => if op == BinOp::Assign {
            pushes(*r)
        } else {
            (pushes(*l) + pushes(*r) - 1) as nat
        },
        Tree::Not(v) => pushes(*v),
        Tree::Block(ts) => pushes_all(ts),
        Tree::If(c, th, e) => pushes(*c) + pushes(*th) + match e {
            Some(e) => pushes(*e),
            None => 0,
        },
        Tree::While(c, b) => pushes(*c) + pushes(*b),
        _ => 1,
    }
}

pub open spec fn pushes_all(ts: Seq<Tree>) -> nat
    decreases ts,
{
    if ts.len() == 0 {
        0
    } else {
        pushes_all(ts.subrange(0, ts.len() - 1)) + pushes(ts[ts.len() - 1])
    }
}

/// Every operator in `t` finds among its operands' values as many as it
/// consumes, so none reaches below the stack it started on.
pub open spec fn balanced(t: Tree) -> bool
    decreases t,
{
    match t {
        Tree::Bin(op, l, r) => if op == BinOp::Assign {
            balanced(*r) && pushes(*r) >= 1
        } else {
            balanced(*l) && balanced(*r) && pushes(*l) + pushes(*r) >= 2
        },
        Tree::Not(v) => balanced(*v) && pushes(*v) >= 1,
        Tree::Block(ts) => balanced_all(ts),
        Tree::If(c, th, e) => balanced(*c) && balanced(*th) && match e {
            Some(e) => balanced(*e),
            None => true,
        },
        Tree::While(c, b) => balanced(*c) && balanced(*b),
        _ => true,
    }
}

pub open spec fn balanced_all(ts: Seq<Tree>) -> bool
    decreases ts,
{
    if ts.len() == 0 {
        true
    } else {
        balanced_all(ts.subrange(0, ts.len() - 1)) && balanced(ts[ts.len() - 1])
    }
}

/// `g2` has the operand stack of `g` with `n` more values on top.
pub open spec fn extends(g: GenState, g2: GenState, n: nat) -> bool {
    g2.values.len() == g.values.len() + n && g2.values.subrange(0, g.values.len() as int) == g.values
}

/// Generation keeps the operand stack below it untouched and leaves exactly
/// `pushes(t)` new values on top.
pub proof fn lemma_gen_stack(t: Tree, g: GenState)
    requires
        balanced(t),
    ensures
        gen(t, g) matches Ok(g2) ==> extends(g, g2, pushes(t)),
    decreases t,
{
    match t {
        Tree::Int(v) => {
            assert(g.values.push(Operand::Const(v)).subrange(0, g.values.len() as int) =~= g.values);
        },
        Tree::Ident(name) => {
            if let Some(k) = find_slot(g.slots, name) {
                if can_emit(g) {
                    assert(g.values.push(next_value(g)).subrange(0, g.values.len() as int) =~= g.values);
                }
            }
        },
        Tree::Bin(op, l, r) => {
            if op == BinOp::Assign {
                if let Tree::Ident(name) = *l {
                    lemma_gen_stack(*r, g);
                }
            } else {
                lemma_gen_stack(*l, g);
                if let Ok(g1) = gen(*l, g) {
                    lemma_gen_stack(*r, g1);
                    if let Ok(g2) = gen(*r, g1) {
                        if g2.values.len() >= 2 && can_emit(g2) {
                            let n = g.values.len() as int;
                            let m = g2.values.len() as int;
                            let g3 = emit_value(pop2(g2), Instr::Binary(op, g2.values[m - 2], g2.values[m - 1]));
                            assert(g1.values.subrange(0, n) =~= g2.values.subrange(0, n));
                            assert(g3.values.subrange(0, n) =~= g2.values.subrange(0, n));
                        }
                    }
                }
            }
        },
        Tree::Not(v) => {
            lemma_gen_stack(*v, g);
            if let Ok(g1) = gen(*v, g) {
                if g1.values.len() >= 1 && can_emit(g1) {
                    let n = g.values.len() as int;
                    let g2 = emit_value(pop1(g1), Instr::Not(g1.values.last()));
                    assert(g2.values.subrange(0, n) =~= g1.values.subrange(0, n));
                }
            }
        },
        Tree::Block(ts) => {
            lemma_gen_all_stack(ts, g);
        },
        Tree::If(c, th, e) => {
            lemma_gen_stack(*c, g);
            if let Ok(g1) = gen(*c, g) {
                lemma_gen_stack(*th, g1);
                if let Ok(g2) = gen(*th, g1) {
                    let n = g.values.len() as int;
                    assert(g2.values.subrange(0, n) =~= g1.values.subrange(0, n));
                    if let Some(e) = e {
                        lemma_gen_stack(*e, g2);
                        if let Ok(g3) = gen(*e, g2) {
                            assert(g3.values.subrange(0, n) =~= g2.values.subrange(0, n));
                        }
                    }
                }
            }
        },
        Tree::While(c, b) => {
            lemma_gen_stack(*c, g);
            if let Ok(g1) = gen(*c, g) {
                lemma_gen_stack(*b, g1);
                if let Ok(g2) = gen(*b, g1) {
                    let n = g.values.len() as int;
                    assert(g2.values.subrange(0, n) =~= g1.values.subrange(0, n));
                }
            }
        },
    }
}

/// A tree of operators over leaves.
pub open spec fn is_expression(t: Tree) -> bool
    decreases t,
{
    match t {
        Tree::Int(_) => true,
        Tree::Ident(_) => true,
        Tree::Bin(op, l, r) => op != BinOp::Assign && is_expression(*l) && is_expression(*r),
        Tree::Not(v) => is_expression(*v),
        _ => false,
    }
}

/// Each expression, generated without error, leaves exactly one new value on
/// the operand stack and keeps the stack below it.
pub proof fn lemma_expression_leaves_one_value(t: Tree, g: GenState)
    requires
        is_expression(t),
        gen(t, g) is Ok,
    ensures
        extends(g, gen(t, g)->Ok_0, 1),
{
    lemma_expression_pushes_one(t);
    lemma_gen_stack(t, g);
}

proof fn lemma_expression_pushes_one(t: Tree)
    requires
        is_expression(t),
    ensures
        pushes(t) == 1,
        balanced(t),
    decreases t,
{
    match t {
        Tree::Bin(_, l, r) => {
            lemma_expression_pushes_one(*l);
            lemma_expression_pushes_one(*r);
        },
        Tree::Not(v) => lemma_expression_pushes_one(*v),
        _ => {},
    }
}

pub proof fn lemma_gen_all_stack(ts: Seq<Tree>, g: GenState)
    requires
        balanced_all(ts),
    ensures
        gen_all(ts, g) matches Ok(g2) ==> extends(g, g2, pushes_all(ts)),
    decreases ts,
{
    if ts.len() > 0 {
        let init = ts.subrange(0, ts.len() - 1);
        lemma_gen_all_stack(init, g);
        if let Ok(g1) = gen_all(init, g) {
            lemma_gen_stack(ts[ts.len() - 1], g1);
            if let Ok(g2) = gen(ts[ts.len() - 1], g1) {
                let n = g.values.len() as int;
                assert(g2.values.subrange(0, n) =~= g1.values.subrange(0, n));
            }
        }
    } else {
        assert(g.values.subrange(0, g.values.len() as int) =~= g.values);
    }
}

/// A single integer literal, generated by a fresh generator and sealed,
/// gives a `main` whose only instruction returns exactly that constant.
pub proof fn lemma_literal_returns_constant(v: i32)
    ensures
        gen(Tree::Int(v), initial_state()) is Ok,
        finalize_state(gen(Tree::Int(v), initial_state())->Ok_0) is Ok,
        finalize_state(gen(Tree::Int(v), initial_state())->Ok_0)->Ok_0.blocks == seq![
            seq![Instr::Ret(Operand::Const(v))],
        ],
{
    let g = gen(Tree::Int(v), initial_state())->Ok_0;
    assert(g.values =~= seq![Operand::Const(v)]);
    let f = finalize_state(g)->Ok_0;
    assert(f.blocks[0] =~= seq![Instr::Ret(Operand::Const(v))]);
    assert(f.blocks =~= seq![seq![Instr::Ret(Operand::Const(v))]]);
}

/// Sealing the function: the open block on top of the stack is closed with a
/// return of the most recent value.
pub open spec fn finalize_state(g: GenState) -> Result<GenState, GenError> {
    if !can_emit(g) {
        Err(GenError::NoInsertionPoint)
    } else if g.values.len() == 0 {
        Err(GenError::StackUnderflow)
    } else {
        let e = emit(g, Instr::Ret(g.values.last()));
        Ok(GenState { values: g.values.drop_last(), cursor: g.cursor.drop_last(), ..e })
    }
}

/// `r` and the state `now` after a step are what the model `p` gives.
pub open spec fn follows(r: Result<(), GenError>, now: GenState, p: Result<GenState, GenError>) -> bool {
    match p {
        Ok(g) => r is Ok && now == g,
        Err(e) => r == Err::<(), GenError>(e),
    }
}

pub proof fn lemma_find_slot(slots: Seq<Seq<char>>, name: Seq<char>)
    ensures
        match find_slot(slots, name) {
            Some(k) => k < slots.len() && slots[k as int] == name && forall|i: int|
                0 <= i < k ==> #[trigger] slots[i] != name,
            None => forall|i: int| 0 <= i < slots.len() ==> #[trigger] slots[i] != name,
        },
    decreases slots.len(),
{
    if slots.len() > 0 {
        lemma_find_slot(slots.drop_last(), name);
        assert forall|i: int| 0 <= i < slots.len() - 1 implies slots.drop_last()[i] == #[trigger] slots[i] by {}
    }
}

/// The code generator: visits syntax trees and emits IR for the `main`
/// function of one module.
pub struct Compiler {
    name: String,
    values: Vec<Operand>,
    blocks: Vec<Vec<Instr>>,
    cursor: Vec<usize>,
    slots: Vec<String>,
}

impl View for Compiler {
    type V = GenState;

    closed spec fn view(&self) -> GenState {
        GenState {
            values: self.values@,
            blocks: self.blocks@.map_values(|b: Vec<Instr>| b@),
            cursor: self.cursor@.map_values(|c: usize| c as int),
            slots: self.slots@.map_values(|n: String| n@),
        }
    }
}

impl Compiler {
    pub closed spec fn module_name(&self) -> Seq<char> {
        self.name@
    }

    /// A generator for the module `program_name`, with one open, empty
    /// entry block.
    pub fn new(program_name: String) -> (r: Compiler)
        ensures
            r@ == initial_state(),
            r.module_name() == program_name@,
    {
        let mut blocks: Vec<Vec<Instr>> = Vec::new();
        blocks.push(Vec::new());
        let mut cursor: Vec<usize> = Vec::new();
        cursor.push(0);
        let r = Compiler { name: program_name, values: Vec::new(), blocks, cursor, slots: Vec::new() };
        assert(r@.blocks =~= initial_state().blocks);
        assert(r@.cursor =~= initial_state().cursor);
        assert(r@.values =~= initial_state().values);
        assert(r@.slots =~= initial_state().slots);
        r
    }

    pub fn name(&self) -> (r: &String)
        ensures
            r@ == self.module_name(),
    {
        &self.name
    }

    /// The instructions of each block of `main`.
    pub fn blocks(&self) -> (r: &Vec<Vec<Instr>>)
        ensures
            r@.map_values(|b: Vec<Instr>| b@) == self@.blocks,
    {
        &self.blocks
    }

    /// The names of the variable slots, by slot number.
    pub fn slots(&self) -> (r: &Vec<String>)
        ensures
            r@.map_values(|n: String| n@) == self@.slots,
    {
        &self.slots
    }

    /// The operand stack, bottom first.
    pub fn values(&self) -> (r: &Vec<Operand>)
        ensures
            r@ == self@.values,
    {
        &self.values
    }

    /// Appends `ins` to the open block on top of the block stack.
    fn emit(&mut self, ins: Instr) -> (r: Result<Operand, GenError>)
        ensures
            can_emit(old(self)@) ==> r == Ok::<Operand, GenError>(next_value(old(self)@))
                && final(self)@ == emit(old(self)@, ins),
            !can_emit(old(self)@) ==> r == Err::<Operand, GenError>(GenError::NoInsertionPoint),
            r is Err ==> final(self)@ == old(self)@,
            keeps(old(self)@, final(self)@),
    {
        proof {
            lemma_keeps_refl(self@);
        }
        if self.cursor.len() == 0 {
            return Err(GenError::NoInsertionPoint);
        }
        let b = self.cursor[self.cursor.len() - 1];
        if b >= self.blocks.len() {
            return Err(GenError::NoInsertionPoint);
        }
        let index = self.blocks[b].len();
        if index == usize::MAX {
            return Err(GenError::NoInsertionPoint);
        }
        let ghost before = self@;
        self.blocks[b].push(ins);
        assert(self@.blocks =~= before.blocks.update(b as int, before.blocks[b as int].push(ins)));
        proof {
            lemma_emit_keeps(before, ins);
        }
        Ok(Operand::Value(b, index))
    }

    /// Pushes the result of `ins` once emitted.
    fn emit_value(&mut self, ins: Instr) -> (r: Result<(), GenError>)
        ensures
            follows(
                r,
                final(self)@,
                if can_emit(old(self)@) {
                    Ok(emit_value(old(self)@, ins))
                } else {
                    Err(GenError::NoInsertionPoint)
                },
            ),
            r is Err ==> final(self)@ == old(self)@,
            keeps(old(self)@, final(self)@),
    {
        let v = self.emit(ins)?;
        self.values.push(v);
        Ok(())
    }

    fn lookup(&self, name: &String) -> (r: Option<usize>)
        ensures
            r == (match find_slot(self@.slots, name@) {
                Some(k) => Some(k as usize),
                None => None::<usize>,
            }),
    {
        proof {
            lemma_find_slot(self@.slots, name@);
        }
        let mut i: usize = 0;
        while i < self.slots.len()
            invariant
                i <= self.slots.len(),
                self@.slots == self.slots@.map_values(|n: String| n@),
                forall|j: int| 0 <= j < i ==> #[trigger] self@.slots[j] != name@,
            decreases self.slots.len() - i,
        {
            if self.slots[i] == *name {
                assert(self@.slots[i as int] == name@);
                proof {
                    lemma_find_slot(self@.slots, name@);
                }
                return Some(i);
            }
            assert(self@.slots[i as int] == self.slots@[i as int]@);
            i = i + 1;
        }
        proof {
            lemma_find_slot(self@.slots, name@);
        }
        None
    }

    fn compile_identifier(&mut self, name: &String) -> (r: Result<(), GenError>)
        ensures
            follows(r, final(self)@, load(name@, old(self)@)),
            r is Err ==> final(self)@ == old(self)@,
            keeps(old(self)@, final(self)@),
    {
        proof {
            lemma_keeps_refl(self@);
        }
        match self.lookup(name) {
            None => Err(GenError::UndefinedVariable),
            Some(k) => self.emit_value(Instr::Load(k)),
        }
    }

    fn can_emit_now(&self) -> (r: bool)
        ensures
            r == can_emit(self@),
    {
        self.cursor.len() > 0 && self.cursor[self.cursor.len() - 1] < self.blocks.len()
            && self.blocks[self.cursor[self.cursor.len() - 1]].len() < usize::MAX
    }

    fn compile_binary(&mut self, op: BinOp) -> (r: Result<(), GenError>)
        ensures
            follows(r, final(self)@, combine(op, old(self)@)),
            r is Err ==> final(self)@ == old(self)@,
            keeps(old(self)@, final(self)@),
    {
        let ghost g = self@;
        proof {
            lemma_keeps_refl(g);
        }
        if self.values.len() < 2 {
            return Err(GenError::StackUnderflow);
        }
        if !self.can_emit_now() {
            return Err(GenError::NoInsertionPoint);
        }
        let right = match self.values.pop() {
            Some(v) => v,
            None => return Err(GenError::StackUnderflow),
        };
        let left = match self.values.pop() {
            Some(v) => v,
            None => return Err(GenError::StackUnderflow),
        };
        assert(self@ == pop2(g)) by {
            assert(self@.values =~= pop2(g).values);
        }
        self.emit_value(Instr::Binary(op, left, right))
    }

    fn compile_logical_not(&mut self) -> (r: Result<(), GenError>)
        ensures
            follows(r, final(self)@, negate(old(self)@)),
            r is Err ==> final(self)@ == old(self)@,
            keeps(old(self)@, final(self)@),
    {
        let ghost g = self@;
        proof {
            lemma_keeps_refl(g);
        }
        if self.values.len() < 1 {
            return Err(GenError::StackUnderflow);
        }
        if !self.can_emit_now() {
            return Err(GenError::NoInsertionPoint);
        }
        let v = match self.values.pop() {
            Some(v) => v,
            None => return Err(GenError::StackUnderflow),
        };
        assert(self@ == pop1(g)) by {
            assert(self@.values =~= pop1(g).values);
        }
        self.emit_value(Instr::Not(v))
    }

    fn compile_assignment(&mut self, name: &String) -> (r: Result<(), GenError>)
        ensures
            follows(r, final(self)@, store(name@, old(self)@)),
            r is Err ==> final(self)@ == old(self)@,
            keeps(old(self)@, final(self)@),
    {
        let ghost g = self@;
        proof {
            lemma_keeps_refl(g);
        }
        if self.values.len() == 0 {
            return Err(GenError::StackUnderflow);
        }
        let v = self.values[self.values.len() - 1];
        match self.lookup(name) {
            Some(k) => {
                self.emit(Instr::Store(k, v))?;
                Ok(())
            },
            None => {
                if !self.can_emit_now()
                    || self.blocks[self.cursor[self.cursor.len() - 1]].len() == usize::MAX - 1 {
                    return Err(GenError::NoInsertionPoint);
                }
                let k = self.slots.len();
                self.slots.push(name.clone());
                assert(self@ == GenState { slots: g.slots.push(name@), ..g }) by {
                    assert(self@.slots =~= g.slots.push(name@));
                }
                let ghost g1 = self@;
                self.emit(Instr::Alloca(k))?;
                let ghost g2 = self@;
                self.emit(Instr::Store(k, v))?;
                proof {
                    lemma_keeps_trans(g1, g2, self@);
                }
                Ok(())
            },
        }
    }

    /// Emits the code of the statements of `block`, in order.
    fn visit_block(&mut self, block: &AstBlock) -> (r: Result<(), GenError>)
        ensures
            follows(r, final(self)@, gen_all(trees_of(block.nodes@), old(self)@)),
            keeps(old(self)@, final(self)@),
        decreases block,
    {
        let ghost ts = trees_of(block.nodes@);
        proof {
            lemma_trees_of(block.nodes@);
        }
        let mut i: usize = 0;
        while i < block.nodes.len()
            invariant
                i <= block.nodes.len(),
                ts == trees_of(block.nodes@),
                ts.len() == block.nodes.len(),
                forall|j: int| 0 <= j < block.nodes.len() ==> #[trigger] ts[j] == tree_of(block.nodes@[j]),
                gen_all(ts.subrange(0, i as int), old(self)@) == Ok::<GenState, GenError>(self@),
                keeps(old(self)@, self@),
            decreases block.nodes.len() - i,
        {
            proof {
                assert(decreases_to!(block.nodes => block.nodes@));
                assert(decreases_to!(block.nodes@ => block.nodes@[i as int]));
                let next = ts.subrange(0, i + 1);
                assert(next.subrange(0, next.len() - 1) =~= ts.subrange(0, i as int));
            }
            let ghost before = self@;
            let step = self.visit(&block.nodes[i]);
            if let Err(e) = step {
                proof {
                    let next = ts.subrange(0, i + 1);
                    assert(gen_all(next, old(self)@) == Err::<GenState, GenError>(e));
                    lemma_gen_all_err(ts, i + 1, old(self)@);
                }
                return Err(e);
            }
            i = i + 1;
        }
        assert(ts.subrange(0, ts.len() as int) =~= ts);
        Ok(())
    }

    /// Seals the function: closes the open block on top of the block stack
    /// with a return of the most recent value, which is popped.
    pub fn finalize(&mut self) -> (r: Result<(), GenError>)
        ensures
            follows(r, final(self)@, finalize_state(old(self)@)),
            r is Err ==> final(self)@ == old(self)@,
    {
        let ghost g = self@;
        if self.cursor.len() == 0 || self.cursor[self.cursor.len() - 1] >= self.blocks.len()
            || self.blocks[self.cursor[self.cursor.len() - 1]].len() == usize::MAX {
            return Err(GenError::NoInsertionPoint);
        }
        if self.values.len() == 0 {
            return Err(GenError::StackUnderflow);
        }
        let v = self.values[self.values.len() - 1];
        let _ = self.emit(Instr::Ret(v));
        let ghost e = self@;
        self.cursor.pop();
        self.values.pop();
        assert(self@ == GenState { values: g.values.drop_last(), cursor: g.cursor.drop_last(), ..e }) by {
            assert(self@.values =~= g.values.drop_last());
            assert(self@.cursor =~= g.cursor.drop_last());
        }
        Ok(())
    }

    /// Emits the code of `node`: children first, left to right; each
    /// expression leaves its value on the operand stack.
    #[verifier::rlimit(100)]
    #[verifier::spinoff_prover]
    pub fn visit(&mut self, node: &AstNode) -> (r: Result<(), GenError>)
        ensures
            follows(r, final(self)@, gen(node@, old(self)@)),
            keeps(old(self)@, final(self)@),
        decreases node,
    {
        match node {
            AstNode::Integer(x) => {
                let ghost g = self@;
                self.values.push(Operand::Const(x.value));
                assert(self@.values =~= g.values.push(Operand::Const(x.value)));
                Ok(())
            },
            AstNode::Identifier(x) => self.compile_identifier(&x.name),
            AstNode::Addition(x) => {
                self.visit(&x.left)?;
                self.visit(&x.right)?;
                self.compile_binary(BinOp::Add)
            },
            AstNode::Subtraction(x) => {
                self.visit(&x.left)?;
                self.visit(&x.right)?;
                self.compile_binary(BinOp::Sub)
            },
            AstNode::Multiplication(x) => {
                self.visit(&x.left)?;
                self.visit(&x.right)?;
                self.compile_binary(BinOp::Mul)
            },
            AstNode::Division(x) => {
                self.visit(&x.left)?;
                self.visit(&x.right)?;
                self.compile_binary(BinOp::Div)
            },
            AstNode::LogicalOr(x) => {
                self.visit(&x.left)?;
                self.visit(&x.right)?;
                self.compile_binary(BinOp::Or)
            },
            AstNode::LogicalAnd(x) => {
                self.visit(&x.left)?;
                self.visit(&x.right)?;
                self.compile_binary(BinOp::And)
            },
            AstNode::Less(x) => {
                self.visit(&x.left)?;
                self.visit(&x.right)?;
                self.compile_binary(BinOp::Lt)
            },
            AstNode::Greater(x) => {
                self.visit(&x.left)?;
                self.visit(&x.right)?;
                self.compile_binary(BinOp::Gt)
            },
            AstNode::LessEqual(x) => {
                self.visit(&x.left)?;
                self.visit(&x.right)?;
                self.compile_binary(BinOp::Le)
            },
            AstNode::GreaterEqual(x) => {
                self.visit(&x.left)?;
                self.visit(&x.right)?;
                self.compile_binary(BinOp::Ge)
            },
            AstNode::LogicalNot(x) => {
                self.visit(&x.value)?;
                self.compile_logical_not()
            },
            AstNode::Assignment(x) => match &*x.left {
                AstNode::Identifier(target) => {
                    assert(node@ == Tree::Bin(
                        BinOp::Assign,
                        Box::new(Tree::Ident(target.name@)),
                        Box::new(tree_of(*x.right)),
                    ));
                    self.visit(&x.right)?;
                    self.compile_assignment(&target.name)
                },
                _ => {
                    assert(!(tree_of(*x.left) is Ident));
                    Err(GenError::InvalidAssignmentTarget)
                },
            },
            AstNode::Block(x) => self.visit_block(x),
            AstNode::If(x) => {
                self.visit(&x.expression)?;
                self.visit(&x.then_block)?;
                match &x.otherwise {
                    Some(o) => self.visit(o),
                    None => Ok(()),
                }
            },
            AstNode::While(x) => {
                self.visit(&x.expression)?;
                self.visit(&x.block)
            },
        }
    }
}

impl AstNode {
    /// Hands this node to `compiler`, which emits its code.
    pub fn accept(&self, compiler: &mut Compiler) -> (r: Result<(), GenError>)
        ensures
            follows(r, final(compiler)@, gen(self@, old(compiler)@)),
            keeps(old(compiler)@, final(compiler)@),
    {
        compiler.visit(self)
    }
}

} // verus!
