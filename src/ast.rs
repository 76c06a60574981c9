//! Syntax tree nodes and their canonical rendering.
use vstd::prelude::*;

use crate::text::{int_text, push_int};
use crate::parser::ParseError;
use crate::token::{spaces_text, token_text, Token, TokenView};

verus! {

broadcast use vstd::std_specs::vec::group_vec_axioms;

/// Marker for the node kinds that are expressions.
pub trait Expression {}

pub struct IntegerNode {
    pub value: i32,
}

pub struct Identifier {
    pub literal: String,
}

pub struct BinaryExpr {
    pub op: Token,
    pub l: Box<Node>,
    pub r: Box<Node>,
}

pub struct CallStmt {
    pub name: Identifier,
    pub args: Vec<Node>,
}

pub struct ConditionalStmt {
    pub conditional: Box<Node>,
    pub pass_block: Box<BlockStmt>,
    pub fail_block: Option<Box<BlockStmt>>,
}

pub struct ReturnStmt {
    pub expr: Box<Node>,
}

pub struct AssignmentStmt {
    pub identifier: Identifier,
    pub expr: Box<Node>,
}

/// Marker for statement-level constructs; it carries no data.
pub struct Statement {}

pub struct BlockStmt {
    pub indent: usize,
    pub statements: Vec<Node>,
}

/// A parameter of a function literal.
pub struct FnArg {
    pub name: Identifier,
}

pub struct FnLiteral {
    pub name: Identifier,
    pub args: Vec<Identifier>,
    pub definition: Box<BlockStmt>,
}

impl Expression for IntegerNode {}

impl Expression for Identifier {}

impl Expression for BinaryExpr {}

/// A syntax tree: each node owns its children.
pub enum Node {
    Integer(IntegerNode),
    Ident(Identifier),
    Binary(BinaryExpr),
    Call(CallStmt),
    Conditional(ConditionalStmt),
    Return(ReturnStmt),
    Assignment(AssignmentStmt),
    Block(BlockStmt),
    Function(FnLiteral),
}

/// The indentation of `level` levels, four spaces each.
pub open spec fn indent_text(level: nat) -> Seq<char> {
    spaces_text(4 * level)
}

/// The first `n` nodes of `v`, each rendered after `prefix`, separated by `sep`.
pub open spec fn joined(v: Vec<Node>, n: int, prefix: Seq<char>, sep: Seq<char>) -> Seq<char>
    decreases v, n,
{
    if n <= 0 || n > v.len() {
        Seq::empty()
    } else if n == 1 {
        prefix + render(v[0])
    } else {
        joined(v, n - 1, prefix, sep) + sep + prefix + render(v[n - 1])
    }
}

/// The first `n` identifiers of `v`, separated by `", "`.
pub open spec fn joined_names(v: Seq<Identifier>, n: int) -> Seq<char>
    decreases n,
{
    if n <= 0 || n > v.len() {
        Seq::empty()
    } else if n == 1 {
        v[0].literal@
    } else {
        joined_names(v, n - 1) + ", "@ + v[n - 1].literal@
    }
}

/// A block: each statement on its own line, indented by the block's level.
pub open spec fn render_block(b: BlockStmt) -> Seq<char>
    decreases b, 0int,
{
    joined(b.statements, b.statements.len() as int, indent_text(b.indent as nat), "\n"@)
}

/// The `else` part of a conditional: empty without a fail block, else its header,
/// indented one level less than the block, and the block.
pub open spec fn render_else(fail: Option<Box<BlockStmt>>) -> Seq<char>
    decreases fail, 0int,
{
    match fail {
        None => Seq::empty(),
        Some(b) => {
            let level = if b.indent > 0 { (b.indent - 1) as nat } else { 0 };
            indent_text(level) + "else:\n"@ + render_block(*b)
        },
    }
}

/// The canonical text of a node.
pub open spec fn render(n: Node) -> Seq<char>
    decreases n, 0int,
{
    match n {
        Node::Integer(i) => int_text(i.value as int),
        Node::Ident(id) => id.literal@,
        Node::Binary(b) => "("@ + render(*b.l) + " "@ + token_text(b.op@) + " "@ + render(*b.r)
            + ")"@,
        Node::Call(c) => c.name.literal@ + "("@ + joined(c.args, c.args.len() as int, Seq::empty(), ", "@)
            + ")"@,
        Node::Conditional(c) => "if ("@ + render(*c.conditional) + "):\n"@ + render_block(
            *c.pass_block,
        ) + "\n"@ + render_else(c.fail_block),
        Node::Return(r) => "return "@ + render(*r.expr),
        Node::Assignment(a) => a.identifier.literal@ + " = "@ + render(*a.expr),
        Node::Block(b) => render_block(b),
        Node::Function(f) => "def "@ + f.name.literal@ + "("@ + joined_names(f.args@, f.args.len() as int)
            + "):\n"@ + render_block(*f.definition),
    }
}

fn push_indent(out: &mut String, level: usize)
    ensures
        final(out)@ == old(out)@ + indent_text(level as nat),
{
    let ghost start = out@;
    let mut k: usize = 0;
    while k < level
        invariant
            k <= level,
            out@ == start + indent_text(k as nat),
        decreases level - k,
    {
        out.append("    ");
        proof {
            reveal_strlit("    ");
            assert(out@ =~= start + indent_text((k + 1) as nat));
        }
        k = k + 1;
    }
}

fn write_joined(v: &Vec<Node>, prefix: &str, sep: &str, out: &mut String)
    ensures
        final(out)@ == old(out)@ + joined(*v, v.len() as int, prefix@, sep@),
    decreases *v, 1int,
{
    let ghost start = out@;
    let mut k: usize = 0;
    while k < v.len()
        invariant
            k <= v.len(),
            out@ == start + joined(*v, k as int, prefix@, sep@),
        decreases v.len() - k,
    {
        if k > 0 {
            out.append(sep);
        }
        out.append(prefix);
        proof {
            assert(decreases_to!(*v => v[k as int]));
        }
        write_node(&v[k], out);
        proof {
            if k == 0 {
                assert(out@ =~= start + joined(*v, 1, prefix@, sep@));
            } else {
                assert(out@ =~= start + joined(*v, k + 1, prefix@, sep@));
            }
        }
        k = k + 1;
    }
}

fn write_block(b: &BlockStmt, out: &mut String)
    ensures
        final(out)@ == old(out)@ + render_block(*b),
    decreases *b, 2int,
{
    let mut prefix = String::new();
    push_indent(&mut prefix, b.indent);
    assert(prefix@ =~= indent_text(b.indent as nat));
    write_joined(&b.statements, prefix.as_str(), "\n", out);
}

fn write_names(v: &Vec<Identifier>, out: &mut String)
    ensures
        final(out)@ == old(out)@ + joined_names(v@, v.len() as int),
{
    let ghost start = out@;
    let mut k: usize = 0;
    while k < v.len()
        invariant
            k <= v.len(),
            out@ == start + joined_names(v@, k as int),
        decreases v.len() - k,
    {
        if k > 0 {
            out.append(", ");
        }
        out.append(v[k].literal.as_str());
        proof {
            if k == 0 {
                assert(out@ =~= start + joined_names(v@, 1));
            } else {
                assert(out@ =~= start + joined_names(v@, k + 1));
            }
        }
        k = k + 1;
    }
}

/// Appends the canonical text of `n` to `out`.
fn write_node(n: &Node, out: &mut String)
    ensures
        final(out)@ == old(out)@ + render(*n),
    decreases *n, 3int,
{
    let ghost start = out@;
    match n {
        Node::Integer(i) => push_int(out, i.value),
        Node::Ident(id) => out.append(id.literal.as_str()),
        Node::Binary(b) => {
            out.append("(");
            write_node(&b.l, out);
            out.append(" ");
            b.op.write_text(out);
            out.append(" ");
            write_node(&b.r, out);
            out.append(")");
        },
        Node::Call(c) => {
            out.append(c.name.literal.as_str());
            out.append("(");
            proof {
                reveal_strlit("");
            }
            assert(""@ =~= Seq::<char>::empty());
            write_joined(&c.args, "", ", ", out);
            out.append(")");
        },
        Node::Conditional(c) => {
            out.append("if (");
            write_node(&c.conditional, out);
            out.append("):\n");
            write_block(&c.pass_block, out);
            out.append("\n");
            let ghost mid = out@;
            match &c.fail_block {
                None => {},
                Some(fb) => {
                    let level = if fb.indent > 0 { fb.indent - 1 } else { 0 };
                    push_indent(out, level);
                    out.append("else:\n");
                    write_block(fb, out);
                },
            }
            assert(out@ =~= mid + render_else(c.fail_block));
            assert(out@ =~= start + render(*n));
        },
        Node::Return(r) => {
            out.append("return ");
            write_node(&r.expr, out);
        },
        Node::Assignment(a) => {
            out.append(a.identifier.literal.as_str());
            out.append(" = ");
            write_node(&a.expr, out);
        },
        Node::Block(b) => write_block(b, out),
        Node::Function(f) => {
            out.append("def ");
            out.append(f.name.literal.as_str());
            out.append("(");
            write_names(&f.args, out);
            out.append("):\n");
            write_block(&f.definition, out);
        },
    }
    assert(out@ =~= start + render(*n));
}

impl IntegerNode {
    /// The integer node of an integer literal token.
    pub fn new(token: Token) -> (res: Result<Self, ParseError>)
        ensures
            match token@ {
                TokenView::IntLiteral(v) => res matches Ok(n) && n.value == v,
                _ => res matches Err(ParseError::InvalidTypeData),
            },
    {
        match token {
            Token::IntLiteral(v) => Ok(IntegerNode { value: v }),
            _ => Err(ParseError::InvalidTypeData),
        }
    }
}

impl BinaryExpr {
    pub fn new(op_token: Token, l: Box<Node>, r: Box<Node>) -> (e: Self)
        ensures
            e.op == op_token,
            e.l == l,
            e.r == r,
    {
        BinaryExpr { op: op_token, l, r }
    }
}

impl Identifier {
    pub fn new(literal: String) -> (id: Self)
        ensures
            id.literal == literal,
    {
        Identifier { literal }
    }
}

impl CallStmt {
    pub fn new(name: Identifier, args: Vec<Node>) -> (c: Self)
        ensures
            c.name == name,
            c.args == args,
    {
        CallStmt { name, args }
    }
}

impl ConditionalStmt {
    pub fn new(cond: Box<Node>, pass_block: Box<BlockStmt>, fail_block: Option<Box<BlockStmt>>) -> (c: Self)
        ensures
            c.conditional == cond,
            c.pass_block == pass_block,
            c.fail_block == fail_block,
    {
        ConditionalStmt { conditional: cond, pass_block, fail_block }
    }
}

impl ReturnStmt {
    pub fn new(expr: Box<Node>) -> (r: Self)
        ensures
            r.expr == expr,
    {
        ReturnStmt { expr }
    }
}

impl AssignmentStmt {
    pub fn new(identifier: Identifier, expression: Box<Node>) -> (a: Self)
        ensures
            a.identifier == identifier,
            a.expr == expression,
    {
        AssignmentStmt { identifier, expr: expression }
    }
}

impl BlockStmt {
    pub fn new(indent: usize, statements: Vec<Node>) -> (b: BlockStmt)
        ensures
            b.indent == indent,
            b.statements == statements,
    {
        BlockStmt { indent, statements }
    }
}

impl FnLiteral {
    pub fn new(name: Identifier, args: Vec<Identifier>, definition: Box<BlockStmt>) -> (f: Self)
        ensures
            f.name == name,
            f.args == args,
            f.definition == definition,
    {
        FnLiteral { name, args, definition }
    }
}

impl Node {
    /// The canonical text of this node and its subtree.
    pub fn repr(&self) -> (r: String)
        ensures
            r@ == render(*self),
    {
        let mut out = String::new();
        write_node(self, &mut out);
        assert(out@ =~= render(*self));
        out
    }

    /// Evaluation is not defined for this language yet: the node comes back unchanged.
    pub fn eval(self) -> (r: Node)
        ensures
            r == self,
    {
        self
    }
}

} // verus!
