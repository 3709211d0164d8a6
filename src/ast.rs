//! The syntax tree, its mathematical model, and its canonical rendering.

use vstd::prelude::*;

verus! {

/// The operator of a node with two children.
#[derive(Clone, Copy, PartialEq, Eq, Structural, Debug)]
pub enum BinOp {
    Add,
    Sub,
    Mul,
    Div,
    Or,
    And,
    Lt,
    Gt,
    Le,
    Ge,
    Assign,
}

/// The mathematical model of a syntax tree.
pub enum Tree {
    Int(i32),
    Ident(Seq<char>),
    Bin(BinOp, Box<Tree>, Box<Tree>),
    Not(Box<Tree>),
    Block(Seq<Tree>),
    If(Box<Tree>, Box<Tree>, Option<Box<Tree>>),
    While(Box<Tree>, Box<Tree>),
}

/// An integer literal.
pub struct Integer {
    pub value: i32,
}

/// A variable reference; also the target of an assignment.
pub struct Identifier {
    pub name: String,
}

pub struct Addition {
    pub left: Box<AstNode>,
    pub right: Box<AstNode>,
}

pub struct Subtraction {
    pub left: Box<AstNode>,
    pub right: Box<AstNode>,
}

pub struct Multiplication {
    pub left: Box<AstNode>,
    pub right: Box<AstNode>,
}

pub struct Division {
    pub left: Box<AstNode>,
    pub right: Box<AstNode>,
}

/// Truthiness negation: 1 when the operand is 0, else 0.
pub struct LogicalNot {
    pub value: Box<AstNode>,
}

pub struct LogicalOr {
    pub left: Box<AstNode>,
    pub right: Box<AstNode>,
}

pub struct LogicalAnd {
    pub left: Box<AstNode>,
    pub right: Box<AstNode>,
}

pub struct Less {
    pub left: Box<AstNode>,
    pub right: Box<AstNode>,
}

pub struct Greater {
    pub left: Box<AstNode>,
    pub right: Box<AstNode>,
}

pub struct LessEqual {
    pub left: Box<AstNode>,
    pub right: Box<AstNode>,
}

pub struct GreaterEqual {
    pub left: Box<AstNode>,
    pub right: Box<AstNode>,
}

/// Stores `right` into the variable named by `left`.
pub struct Assignment {
    pub left: Box<AstNode>,
    pub right: Box<AstNode>,
}

/// A sequence of statements, possibly empty.
pub struct Block {
    pub nodes: Vec<AstNode>,
}

pub struct If {
    pub expression: Box<AstNode>,
    pub then_block: Box<AstNode>,
    pub otherwise: Option<Box<AstNode>>,
}

pub struct While {
    pub expression: Box<AstNode>,
    pub block: Box<AstNode>,
}

/// A syntax tree node; each node owns its children.
pub enum AstNode {
    Integer(Integer),
    Identifier(Identifier),
    Addition(Addition),
    Subtraction(Subtraction),
    Multiplication(Multiplication),
    Division(Division),
    LogicalNot(LogicalNot),
    LogicalOr(LogicalOr),
    LogicalAnd(LogicalAnd),
    Less(Less),
    Greater(Greater),
    LessEqual(LessEqual),
    GreaterEqual(GreaterEqual),
    Assignment(Assignment),
    Block(Block),
    If(If),
    While(While),
}

pub open spec fn tree_of(n: AstNode) -> Tree
    decreases n,
{
    match n {
        AstNode::Integer(x) => Tree::Int(x.value),
        AstNode::Identifier(x) => Tree::Ident(x.name@),
        AstNode::Addition(x) => Tree::Bin(BinOp::Add, Box::new(tree_of(*x.left)), Box::new(tree_of(*x.right))),
        AstNode::Subtraction(x) => Tree::Bin(BinOp::Sub, Box::new(tree_of(*x.left)), Box::new(tree_of(*x.right))),
        AstNode::Multiplication(x) => Tree::Bin(BinOp::Mul, Box::new(tree_of(*x.left)), Box::new(tree_of(*x.right))),
        AstNode::Division(x) => Tree::Bin(BinOp::Div, Box::new(tree_of(*x.left)), Box::new(tree_of(*x.right))),
        AstNode::LogicalNot(x) => Tree::Not(Box::new(tree_of(*x.value))),
        AstNode::LogicalOr(x) => Tree::Bin(BinOp::Or, Box::new(tree_of(*x.left)), Box::new(tree_of(*x.right))),
        AstNode::LogicalAnd(x) => Tree::Bin(BinOp::And, Box::new(tree_of(*x.left)), Box::new(tree_of(*x.right))),
        AstNode::Less(x) => Tree::Bin(BinOp::Lt, Box::new(tree_of(*x.left)), Box::new(tree_of(*x.right))),
        AstNode::Greater(x) => Tree::Bin(BinOp::Gt, Box::new(tree_of(*x.left)), Box::new(tree_of(*x.right))),
        AstNode::LessEqual(x) => Tree::Bin(BinOp::Le, Box::new(tree_of(*x.left)), Box::new(tree_of(*x.right))),
        AstNode::GreaterEqual(x) => Tree::Bin(BinOp::Ge, Box::new(tree_of(*x.left)), Box::new(tree_of(*x.right))),
        AstNode::Assignment(x) => Tree::Bin(BinOp::Assign, Box::new(tree_of(*x.left)), Box::new(tree_of(*x.right))),
        AstNode::Block(x) => Tree::Block(trees_of(x.nodes@)),
        AstNode::If(x) => Tree::If(
            Box::new(tree_of(*x.expression)),
            Box::new(tree_of(*x.then_block)),
            match x.otherwise {
                Some(o) => Some(Box::new(tree_of(*o))),
                None => None,
            },
        ),
        AstNode::While(x) => Tree::While(Box::new(tree_of(*x.expression)), Box::new(tree_of(*x.block))),
    }
}

pub open spec fn trees_of(s: Seq<AstNode>) -> Seq<Tree>
    decreases s,
{
    if s.len() == 0 {
        Seq::empty()
    } else {
        trees_of(s.drop_last()).push(tree_of(s.last()))
    }
}

impl View for AstNode {
    type V = Tree;

    open spec fn view(&self) -> Tree {
        tree_of(*self)
    }
}

pub open spec fn op_name(op: BinOp) -> Seq<char> {
    match op {
        BinOp::Add => "Addition"@,
        BinOp::Sub => "Subtraction"@,
        BinOp::Mul => "Multiplication"@,
        BinOp::Div => "Division"@,
        BinOp::Or => "Or"@,
        BinOp::And => "And"@,
        BinOp::Lt => "Less"@,
        BinOp::Gt => "Greater"@,
        BinOp::Le => "LessEqual"@,
        BinOp::Ge => "GreaterEqual"@,
        BinOp::Assign => "Assignment"@,
    }
}

/// The character of a decimal digit `d < 10`.
pub open spec fn digit_char(d: nat) -> char {
    ((d + 48) as u8) as char
}

/// The decimal digits of `n`, most significant first, without leading zeros.
pub open spec fn digits(n: nat) -> Seq<char>
    decreases n,
{
    if n < 10 {
        seq![digit_char(n)]
    } else {
        digits(n / 10).push(digit_char(n % 10))
    }
}

/// `v` written in decimal, with a leading `-` when negative.
pub open spec fn decimal(v: int) -> Seq<char> {
    if v < 0 {
        seq!['-'] + digits((-v) as nat)
    } else {
        digits(v as nat)
    }
}

/// The canonical rendering: `Name(child, child, ...)` for inner nodes, the
/// bare value or name for leaves.
pub open spec fn render_tree(t: Tree) -> Seq<char>
    decreases t,
{
    match t {
        Tree::Int(v) => decimal(v as int),
        Tree::Ident(name) => name,
        Tree::Bin(op, l, r) => op_name(op) + "("@ + render_tree(*l) + ", "@ + render_tree(*r) + ")"@,
        Tree::Not(v) => "Not("@ + render_tree(*v) + ")"@,
        Tree::Block(ts) => "Block("@ + render_list(ts) + ")"@,
        Tree::If(c, t, e) => match e {
            Some(e) => "If("@ + render_tree(*c) + ", "@ + render_tree(*t) + ", "@ + render_tree(*e)
                + ")"@,
            None => "If("@ + render_tree(*c) + ", "@ + render_tree(*t) + ")"@,
        },
        Tree::While(c, b) => "While("@ + render_tree(*c) + ", "@ + render_tree(*b) + ")"@,
    }
}

/// The renderings of `ts` separated by `", "`.
pub open spec fn render_list(ts: Seq<Tree>) -> Seq<char>
    decreases ts,
{
    if ts.len() == 0 {
        Seq::empty()
    } else if ts.len() == 1 {
        render_tree(ts[0])
    } else {
        render_list(ts.subrange(0, ts.len() - 1)) + ", "@ + render_tree(ts[ts.len() - 1])
    }
}

pub proof fn lemma_trees_of(s: Seq<AstNode>)
    ensures
        trees_of(s).len() == s.len(),
        forall|i: int| 0 <= i < s.len() ==> #[trigger] trees_of(s)[i] == tree_of(s[i]),
    decreases s.len(),
{
    if s.len() > 0 {
        lemma_trees_of(s.drop_last());
    }
}

fn digit_str(d: u32) -> (r: &'static str)
    requires
        d < 10,
    ensures
        r@ == seq![digit_char(d as nat)],
{
    proof {
        reveal_strlit("0");
        reveal_strlit("1");
        reveal_strlit("2");
        reveal_strlit("3");
        reveal_strlit("4");
        reveal_strlit("5");
        reveal_strlit("6");
        reveal_strlit("7");
        reveal_strlit("8");
        reveal_strlit("9");
    }
    match d {
        0 => "0",
        1 => "1",
        2 => "2",
        3 => "3",
        4 => "4",
        5 => "5",
        6 => "6",
        7 => "7",
        8 => "8",
        _ => "9",
    }
}

fn push_digits(n: u32, out: &mut String)
    ensures
        final(out)@ == old(out)@ + digits(n as nat),
    decreases n,
{
    if n >= 10 {
        push_digits(n / 10, out);
    }
    out.append(digit_str(n % 10));
    assert(final(out)@ =~= old(out)@ + digits(n as nat));
}

fn push_decimal(v: i32, out: &mut String)
    ensures
        final(out)@ == old(out)@ + decimal(v as int),
{
    if v < 0 {
        proof {
            reveal_strlit("-");
        }
        out.append("-");
        let n: u32 = (0i64 - v as i64) as u32;
        push_digits(n, out);
        assert(final(out)@ =~= old(out)@ + decimal(v as int));
    } else {
        push_digits(v as u32, out);
    }
}

impl Block {
    /// Appends the renderings of the statements, separated by `", "`.
    fn render_items(&self, out: &mut String)
        ensures
            final(out)@ == old(out)@ + render_list(trees_of(self.nodes@)),
        decreases self,
    {
        let ghost ts = trees_of(self.nodes@);
        proof {
            lemma_trees_of(self.nodes@);
        }
        let ghost mid = out@;
        let mut i: usize = 0;
        while i < self.nodes.len()
            invariant
                i <= self.nodes.len(),
                ts == trees_of(self.nodes@),
                ts.len() == self.nodes.len(),
                forall|j: int| 0 <= j < self.nodes.len() ==> #[trigger] ts[j] == tree_of(self.nodes@[j]),
                out@ == mid + render_list(ts.subrange(0, i as int)),
            decreases self.nodes.len() - i,
        {
            if i > 0 {
                out.append(", ");
            }
            proof {
                assert(decreases_to!(self.nodes => self.nodes@));
                assert(decreases_to!(self.nodes@ => self.nodes@[i as int]));
            }
            self.nodes[i].render_into(out);
            proof {
                let pre = ts.subrange(0, i as int);
                let next = ts.subrange(0, i + 1);
                assert(next.subrange(0, next.len() - 1) =~= pre);
                assert(out@ =~= mid + render_list(next));
            }
            i = i + 1;
        }
        assert(ts.subrange(0, ts.len() as int) =~= ts);
    }
}

impl AstNode {
    /// Appends the canonical rendering of this node to `out`.
    #[verifier::rlimit(40)]
    pub fn render_into(&self, out: &mut String)
        ensures
            final(out)@ == old(out)@ + render_tree(self@),
        decreases self,
    {
        let ghost start = out@;
        match self {
            AstNode::Integer(x) => push_decimal(x.value, out),
            AstNode::Identifier(x) => out.append(x.name.as_str()),
            AstNode::Addition(x) => {
                out.append("Addition");
                out.append("(");
                x.left.render_into(out);
                out.append(", ");
                x.right.render_into(out);
                out.append(")");
                assert(out@ =~= start + render_tree(self@));
            },
            AstNode::Subtraction(x) => {
                out.append("Subtraction");
                out.append("(");
                x.left.render_into(out);
                out.append(", ");
                x.right.render_into(out);
                out.append(")");
                assert(out@ =~= start + render_tree(self@));
            },
            AstNode::Multiplication(x) => {
                out.append("Multiplication");
                out.append("(");
                x.left.render_into(out);
                out.append(", ");
                x.right.render_into(out);
                out.append(")");
                assert(out@ =~= start + render_tree(self@));
            },
            AstNode::Division(x) => {
                out.append("Division");
                out.append("(");
                x.left.render_into(out);
                out.append(", ");
                x.right.render_into(out);
                out.append(")");
                assert(out@ =~= start + render_tree(self@));
            },
            AstNode::LogicalOr(x) => {
                out.append("Or");
                out.append("(");
                x.left.render_into(out);
                out.append(", ");
                x.right.render_into(out);
                out.append(")");
                assert(out@ =~= start + render_tree(self@));
            },
            AstNode::LogicalAnd(x) => {
                out.append("And");
                out.append("(");
                x.left.render_into(out);
                out.append(", ");
                x.right.render_into(out);
                out.append(")");
                assert(out@ =~= start + render_tree(self@));
            },
            AstNode::Less(x) => {
                out.append("Less");
                out.append("(");
                x.left.render_into(out);
                out.append(", ");
                x.right.render_into(out);
                out.append(")");
                assert(out@ =~= start + render_tree(self@));
            },
            AstNode::Greater(x) => {
                out.append("Greater");
                out.append("(");
                x.left.render_into(out);
                out.append(", ");
                x.right.render_into(out);
                out.append(")");
                assert(out@ =~= start + render_tree(self@));
            },
            AstNode::LessEqual(x) => {
                out.append("LessEqual");
                out.append("(");
                x.left.render_into(out);
                out.append(", ");
                x.right.render_into(out);
                out.append(")");
                assert(out@ =~= start + render_tree(self@));
            },
            AstNode::GreaterEqual(x) => {
                out.append("GreaterEqual");
                out.append("(");
                x.left.render_into(out);
                out.append(", ");
                x.right.render_into(out);
                out.append(")");
                assert(out@ =~= start + render_tree(self@));
            },
            AstNode::Assignment(x) => {
                out.append("Assignment");
                out.append("(");
                x.left.render_into(out);
                out.append(", ");
                x.right.render_into(out);
                out.append(")");
                assert(out@ =~= start + render_tree(self@));
            },
            AstNode::LogicalNot(x) => {
                out.append("Not(");
                x.value.render_into(out);
                out.append(")");
                assert(out@ =~= start + render_tree(self@));
            },
            AstNode::Block(x) => {
                out.append("Block(");
                x.render_items(out);
                out.append(")");
                assert(out@ =~= start + render_tree(self@));
            },
            AstNode::If(x) => {
                out.append("If(");
                x.expression.render_into(out);
                out.append(", ");
                x.then_block.render_into(out);
                match &x.otherwise {
                    Some(o) => {
                        out.append(", ");
                        o.render_into(out);
                    },
                    None => {},
                }
                out.append(")");
                assert(out@ =~= start + render_tree(self@));
            },
            AstNode::While(x) => {
                out.append("While(");
                x.expression.render_into(out);
                out.append(", ");
                x.block.render_into(out);
                out.append(")");
                assert(out@ =~= start + render_tree(self@));
            },
        }
    }

    /// The canonical rendering of this node.
    pub fn render(&self) -> (r: String)
        ensures
            r@ == render_tree(self@),
    {
        let mut out = String::new();
        self.render_into(&mut out);
        assert(out@ =~= render_tree(self@));
        out
    }
}

impl AstNode {
    /// The node of `op` over `left` and `right`.
    pub fn binary(op: BinOp, left: AstNode, right: AstNode) -> (r: AstNode)
        ensures
            r@ == Tree::Bin(op, Box::new(left@), Box::new(right@)),
    {
        let left = Box::new(left);
        let right = Box::new(right);
        match op {
            BinOp::Add => AstNode::Addition(Addition { left, right }),
            BinOp::Sub => AstNode::Subtraction(Subtraction { left, right }),
            BinOp::Mul => AstNode::Multiplication(Multiplication { left, right }),
            BinOp::Div => AstNode::Division(Division { left, right }),
            BinOp::Or => AstNode::LogicalOr(LogicalOr { left, right }),
            BinOp::And => AstNode::LogicalAnd(LogicalAnd { left, right }),
            BinOp::Lt => AstNode::Less(Less { left, right }),
            BinOp::Gt => AstNode::Greater(Greater { left, right }),
            BinOp::Le => AstNode::LessEqual(LessEqual { left, right }),
            BinOp::Ge => AstNode::GreaterEqual(GreaterEqual { left, right }),
            BinOp::Assign => AstNode::Assignment(Assignment { left, right }),
        }
    }

    /// An integer literal node.
    pub fn integer(value: i32) -> (r: AstNode)
        ensures
            r@ == Tree::Int(value),
    {
        AstNode::Integer(Integer { value })
    }

    /// A logical negation node.
    pub fn not(value: AstNode) -> (r: AstNode)
        ensures
            r@ == Tree::Not(Box::new(value@)),
    {
        AstNode::LogicalNot(LogicalNot { value: Box::new(value) })
    }
}

impl If {
    pub fn new(expression: AstNode, then_block: AstNode, otherwise: Option<AstNode>) -> (r: AstNode)
        ensures
            r@ == Tree::If(
                Box::new(expression@),
                Box::new(then_block@),
                match otherwise {
                    Some(o) => Some(Box::new(o@)),
                    None => None,
                },
            ),
    {
        let otherwise = match otherwise {
            Some(o) => Some(Box::new(o)),
            None => None,
        };
        AstNode::If(If { expression: Box::new(expression), then_block: Box::new(then_block), otherwise })
    }
}

impl While {
    pub fn new(expression: AstNode, block: AstNode) -> (r: AstNode)
        ensures
            r@ == Tree::While(Box::new(expression@), Box::new(block@)),
    {
        AstNode::While(While { expression: Box::new(expression), block: Box::new(block) })
    }
}

impl Block {
    /// An empty block.
    pub fn new() -> (r: Block)
        ensures
            trees_of(r.nodes@) == Seq::<Tree>::empty(),
    {
        Block { nodes: Vec::new() }
    }

    /// Appends a statement to the block.
    pub fn add_node(&mut self, node: AstNode)
        ensures
            trees_of(final(self).nodes@) == trees_of(old(self).nodes@).push(node@),
    {
        self.nodes.push(node);
        assert(self.nodes@.drop_last() =~= old(self).nodes@);
    }
}

} // verus!
