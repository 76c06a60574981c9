//! Precedence-climbing parser over a token vector, driven by two cursors.
use vstd::prelude::*;

use crate::ast::{AssignmentStmt, BinaryExpr, Identifier, IntegerNode, Node};
use crate::token::{operator_of, operator_precedence, Token, TokenView};

verus! {

#[derive(Debug)]
pub enum ParseError {
    /// The token at an operand position is neither an integer literal nor an identifier.
    InvalidTypeData,
    /// A grammar path that is not handled.
    NotImplementedToken(String),
    /// The tokens ran out while more input was expected.
    ReachedEnd,
}

#[derive(Debug, Clone, Copy, PartialEq, Eq, PartialOrd, Ord, Structural)]
pub enum Precedence {
    Lowest,
    AddSub,
    MulDiv,
    EqNotEq,
}

/// Position of a precedence level in the order of binding strength.
pub open spec fn rank(p: Precedence) -> int {
    match p {
        Precedence::Lowest => 0,
        Precedence::AddSub => 1,
        Precedence::MulDiv => 2,
        Precedence::EqNotEq => 3,
    }
}

/// The level just above `p`; the highest level is its own successor.
pub open spec fn tighter(p: Precedence) -> Precedence {
    match p {
        Precedence::Lowest => Precedence::AddSub,
        Precedence::AddSub => Precedence::MulDiv,
        _ => Precedence::EqNotEq,
    }
}

/// Precedence of a token: that of its operator, `Lowest` for any other token.
pub open spec fn token_precedence(t: TokenView) -> Precedence {
    match operator_of(t) {
        Some(op) => operator_precedence(op),
        None => Precedence::Lowest,
    }
}

impl Precedence {
    pub fn rank(&self) -> (r: u8)
        ensures
            r == rank(*self),
    {
        match self {
            Precedence::Lowest => 0,
            Precedence::AddSub => 1,
            Precedence::MulDiv => 2,
            Precedence::EqNotEq => 3,
        }
    }

    /// The level just above this one.
    pub fn tighter(&self) -> (r: Precedence)
        ensures
            r == tighter(*self),
    {
        match self {
            Precedence::Lowest => Precedence::AddSub,
            Precedence::AddSub => Precedence::MulDiv,
            _ => Precedence::EqNotEq,
        }
    }
}

/// First index at or after `i` whose token is not an opening parenthesis.
pub open spec fn skip_open_parens(toks: Seq<Token>, i: int) -> int
    decreases toks.len() - i,
{
    if 0 <= i < toks.len() && toks[i]@ == TokenView::LParen {
        skip_open_parens(toks, i + 1)
    } else {
        i
    }
}

/// A node that the expression parser can build: literals, identifiers, binary
/// expressions over arithmetic operators, and assignments.
pub open spec fn is_expr(n: Node) -> bool
    decreases n,
{
    match n {
        Node::Integer(_) => true,
        Node::Ident(_) => true,
        Node::Binary(b) => operator_of(b.op@) is Some && is_expr(*b.l) && is_expr(*b.r),
        Node::Assignment(a) => is_expr(*a.expr),
        _ => false,
    }
}

/// The tokens end in an arithmetic operator and hold no closing parenthesis: an
/// expression cut off after its last operator.
pub open spec fn ends_unfinished(toks: Seq<Token>) -> bool {
    &&& toks.len() > 0
    &&& operator_of(toks.last()@) is Some
    &&& forall|i: int| 0 <= i < toks.len() ==> !(toks[i]@ is RParen)
}

/// The shape of an expression tree, as values.
pub enum Tree {
    Int(int),
    Name(Seq<char>),
    Bin(TokenView, Box<Tree>, Box<Tree>),
    Assign(Seq<char>, Box<Tree>),
}

/// The kind of a parse error.
pub enum Fault {
    InvalidTypeData,
    NotImplementedToken,
    ReachedEnd,
}

pub open spec fn fault(e: ParseError) -> Fault {
    match e {
        ParseError::InvalidTypeData => Fault::InvalidTypeData,
        ParseError::NotImplementedToken(_) => Fault::NotImplementedToken,
        ParseError::ReachedEnd => Fault::ReachedEnd,
    }
}

/// The tree of an expression node; other kinds of node are not built by the parser.
pub open spec fn tree(n: Node) -> Tree
    decreases n,
{
    match n {
        Node::Integer(i) => Tree::Int(i.value as int),
        Node::Ident(id) => Tree::Name(id.literal@),
        Node::Binary(b) => Tree::Bin(b.op@, Box::new(tree(*b.l)), Box::new(tree(*b.r))),
        Node::Assignment(a) => Tree::Assign(a.identifier.literal@, Box::new(tree(*a.expr))),
        _ => Tree::Int(0),
    }
}

pub open spec fn opt_tree(n: Option<Node>) -> Option<Tree> {
    match n {
        Some(x) => Some(tree(x)),
        None => None,
    }
}

/// `res` is the outcome `s`: the same tree, or an error of the same kind.
pub open spec fn same_outcome(res: Result<Node, ParseError>, s: Result<Tree, Fault>) -> bool {
    match (res, s) {
        (Ok(n), Ok(t)) => tree(n) == t,
        (Err(e), Err(f)) => fault(e) == f,
        _ => false,
    }
}

/// The operand at the trailing cursor `l` after any opening parentheses, with the
/// cursor moved onto it.
pub open spec fn operand_at(toks: Seq<Token>, l: int) -> (Result<Tree, Fault>, int) {
    let i = skip_open_parens(toks, l);
    if i < 0 || i >= toks.len() {
        (Err(Fault::ReachedEnd), i)
    } else {
        match toks[i]@ {
            TokenView::IntLiteral(v) => (Ok(Tree::Int(v)), i),
            TokenView::Ident(name) => (Ok(Tree::Name(name)), i),
            _ => (Err(Fault::InvalidTypeData), i),
        }
    }
}

/// The operand built so far, or else the one at the trailing cursor.
pub open spec fn resolve(toks: Seq<Token>, node: Option<Tree>, l: int) -> (Result<Tree, Fault>, int) {
    match node {
        Some(t) => (Ok(t), l),
        None => operand_at(toks, l),
    }
}

/// Outcome of a parse from trailing cursor `l` and leading cursor `r` at precedence
/// `prec`: the result and the two cursors after it. `closes` tells whether this parse
/// consumes a closing parenthesis that ends it (the parse of a parenthesised unit, or
/// the outermost one) or leaves it to its caller (the right-hand side of an operator).
pub open spec fn parse_from(toks: Seq<Token>, l: int, r: int, prec: Precedence, closes: bool) -> (
    Result<Tree, Fault>,
    int,
    int,
)
    decreases toks.len() - r, 1int,
{
    parse_loop(toks, l, r, prec, closes, None)
}

/// Outcome of the rest of a parse, with `node` the operand built so far.
pub open spec fn parse_loop(
    toks: Seq<Token>,
    l: int,
    r: int,
    prec: Precedence,
    closes: bool,
    node: Option<Tree>,
) -> (Result<Tree, Fault>, int, int)
    decreases toks.len() - r, 0int,
{
    if !(0 <= r < toks.len()) {
        let (res, l2) = resolve(toks, node, l);
        (res, l2, r)
    } else {
        let t = toks[r]@;
        if operator_of(t) is Some {
            let np = token_precedence(t);
            if rank(np) < rank(prec) {
                let (res, l2) = resolve(toks, node, l);
                (res, l2, r)
            } else {
                let (lhs, l2) = resolve(toks, node, l);
                match lhs {
                    Err(f) => (Err(f), l2, r),
                    Ok(a) => {
                        let (rhs, l3, r3) = parse_from(toks, r + 1, r + 1, tighter(np), false);
                        match rhs {
                            Err(f) => (Err(f), l3, r3),
                            Ok(b) => if r < r3 <= toks.len() {
                                parse_loop(
                                    toks,
                                    l3,
                                    r3,
                                    prec,
                                    closes,
                                    Some(Tree::Bin(t, Box::new(a), Box::new(b))),
                                )
                            } else {
                                (Err(Fault::ReachedEnd), l3, r3)
                            },
                        }
                    },
                }
            }
        } else if t is LParen {
            let (inner, l3, r3) = parse_from(toks, l, r + 1, Precedence::Lowest, true);
            match inner {
                Err(f) => (Err(f), l3, r3),
                Ok(x) => if r < r3 <= toks.len() {
                    parse_loop(toks, l3, r3, prec, closes, Some(x))
                } else {
                    (Err(Fault::ReachedEnd), l3, r3)
                },
            }
        } else if t is RParen {
            let (res, l2) = resolve(toks, node, l);
            match res {
                Err(f) => (Err(f), l2, r),
                Ok(a) => (Ok(a), l2, if closes { r + 1 } else { r }),
            }
        } else if t is Eq {
            if l < 0 || l >= toks.len() {
                (Err(Fault::ReachedEnd), l, r)
            } else {
                match toks[l]@ {
                    TokenView::Ident(name) => {
                        let (e, l3, r3) = parse_from(toks, r + 1, r + 1, Precedence::Lowest, closes);
                        match e {
                            Err(f) => (Err(f), l3, r3),
                            Ok(x) => (Ok(Tree::Assign(name, Box::new(x))), l3, r3),
                        }
                    },
                    _ => (Err(Fault::InvalidTypeData), l, r),
                }
            }
        } else {
            parse_loop(toks, l, r + 1, prec, closes, node)
        }
    }
}

/// The tokens alternate operands and arithmetic operators, starting with an operand
/// and ending with an operator: an expression without parentheses, cut off after
/// its last operator.
pub open spec fn cut_after_operator(toks: Seq<Token>) -> bool {
    &&& toks.len() > 0
    &&& toks.len() % 2 == 0
    &&& forall|i: int|
        0 <= i < toks.len() && i % 2 == 0 ==> (#[trigger] toks[i]@ is IntLiteral || toks[i]@ is Ident)
    &&& forall|i: int| 0 <= i < toks.len() && i % 2 == 1 ==> operator_of(#[trigger] toks[i]@) is Some
}

/// The cursor states that a parse of such tokens passes through.
spec fn cut_state(toks: Seq<Token>, l: int, r: int, node: Option<Tree>) -> bool {
    &&& 0 <= r <= toks.len()
    &&& match node {
        None => (l == r && r % 2 == 0) || (r == l + 1 && l % 2 == 0),
        Some(_) => r % 2 == 1,
    }
}

/// What a parse of such tokens can end in: running out of tokens, or a tree that
/// stops before an operator binding less tightly than `prec`.
spec fn cut_outcome(toks: Seq<Token>, o: (Result<Tree, Fault>, int, int), r: int, prec: Precedence) -> bool {
    match o.0 {
        Err(f) => f == Fault::ReachedEnd,
        Ok(_) => r <= o.2 < toks.len() && o.2 % 2 == 1 && rank(token_precedence(toks[o.2]@))
            < rank(prec),
    }
}

proof fn lemma_cut_from(toks: Seq<Token>, r: int, prec: Precedence, closes: bool)
    requires
        cut_after_operator(toks),
        0 <= r <= toks.len(),
        r % 2 == 0,
    ensures
        cut_outcome(toks, parse_from(toks, r, r, prec, closes), r, prec),
    decreases toks.len() - r, 1int,
{
    lemma_cut_loop(toks, r, r, prec, closes, None);
}

proof fn lemma_cut_loop(
    toks: Seq<Token>,
    l: int,
    r: int,
    prec: Precedence,
    closes: bool,
    node: Option<Tree>,
)
    requires
        cut_after_operator(toks),
        cut_state(toks, l, r, node),
    ensures
        cut_outcome(toks, parse_loop(toks, l, r, prec, closes, node), r, prec),
    decreases toks.len() - r, 0int,
{
    if r < toks.len() {
        let t = toks[r]@;
        if r % 2 == 0 {
            assert(t is IntLiteral || t is Ident);
            lemma_cut_loop(toks, l, r + 1, prec, closes, node);
        } else {
            assert(operator_of(t) is Some);
            if node is None {
                assert(toks[l]@ is IntLiteral || toks[l]@ is Ident);
                assert(skip_open_parens(toks, l) == l);
            }
            let np = token_precedence(t);
            if rank(np) >= rank(prec) {
                lemma_cut_from(toks, r + 1, tighter(np), false);
                let (rhs, l3, r3) = parse_from(toks, r + 1, r + 1, tighter(np), false);
                let (lhs, l2) = resolve(toks, node, l);
                if let Ok(b) = rhs {
                    if let Ok(a) = lhs {
                        lemma_cut_loop(
                            toks,
                            l3,
                            r3,
                            prec,
                            closes,
                            Some(Tree::Bin(t, Box::new(a), Box::new(b))),
                        );
                    }
                }
            }
        }
    } else {
        assert(skip_open_parens(toks, l) == l);
    }
}

/// The leaf tree of an operand token.
pub open spec fn leaf(t: TokenView) -> Tree {
    match t {
        TokenView::IntLiteral(v) => Tree::Int(v),
        TokenView::Ident(name) => Tree::Name(name),
        _ => Tree::Int(0),
    }
}

/// The first `k` tokens, operands at even and operators at odd positions, grouped to
/// the left: `((a op b) op c) ...`.
pub open spec fn left_chain(toks: Seq<Token>, k: int) -> Tree
    decreases k,
{
    if k <= 1 {
        leaf(toks[0]@)
    } else {
        Tree::Bin(toks[k - 2]@, Box::new(left_chain(toks, k - 2)), Box::new(leaf(toks[k - 1]@)))
    }
}

/// The tokens alternate operands and arithmetic operators, start and end with an
/// operand, and every operator has the precedence of the first one.
pub open spec fn one_level_chain(toks: Seq<Token>) -> bool {
    &&& toks.len() % 2 == 1
    &&& forall|i: int|
        0 <= i < toks.len() && i % 2 == 0 ==> (#[trigger] toks[i]@ is IntLiteral || toks[i]@ is Ident)
    &&& forall|i: int|
        0 <= i < toks.len() && i % 2 == 1 ==> operator_of(#[trigger] toks[i]@) is Some
            && token_precedence(toks[i]@) == token_precedence(toks[1]@)
}

proof fn lemma_chain_operand(toks: Seq<Token>, j: int, p: Precedence)
    requires
        one_level_chain(toks),
        0 <= j < toks.len(),
        j % 2 == 0,
        toks.len() > 1,
        p == tighter(token_precedence(toks[1]@)),
    ensures
        parse_from(toks, j, j, p, false).0 == Ok::<Tree, Fault>(leaf(toks[j]@)),
        parse_from(toks, j, j, p, false).2 == j + 1,
{
    assert(toks[j]@ is IntLiteral || toks[j]@ is Ident);
    assert(skip_open_parens(toks, j) == j);
    assert(operand_at(toks, j) == (Ok::<Tree, Fault>(leaf(toks[j]@)), j));
    assert(operator_of(toks[1]@) is Some);
    let q = token_precedence(toks[1]@);
    assert(q is AddSub || q is MulDiv);
    assert(parse_from(toks, j, j, p, false) == parse_loop(toks, j, j + 1, p, false, None));
    if j + 1 < toks.len() {
        assert(operator_of(toks[j + 1]@) is Some);
        assert(token_precedence(toks[j + 1]@) == q);
        assert(rank(q) < rank(p));
    }
}

proof fn lemma_chain_from_start(toks: Seq<Token>)
    requires
        one_level_chain(toks),
    ensures
        parse_from(toks, 0, 0, Precedence::Lowest, true).0 == Ok::<Tree, Fault>(
            left_chain(toks, toks.len() as int),
        ),
{
    assert(toks[0]@ is IntLiteral || toks[0]@ is Ident);
    assert(skip_open_parens(toks, 0) == 0);
    assert(operand_at(toks, 0) == (Ok::<Tree, Fault>(leaf(toks[0]@)), 0int));
    assert(left_chain(toks, 1) == leaf(toks[0]@));
    assert(parse_loop(toks, 0, 0, Precedence::Lowest, true, None) == parse_loop(
        toks,
        0,
        1,
        Precedence::Lowest,
        true,
        None,
    ));
    if toks.len() > 1 {
        let t = toks[1]@;
        assert(operator_of(t) is Some);
        let np = token_precedence(t);
        lemma_chain_operand(toks, 2, tighter(np));
        let (rhs, l3, r3) = parse_from(toks, 2, 2, tighter(np), false);
        assert(toks.len() >= 3);
        assert(left_chain(toks, 3) == Tree::Bin(t, Box::new(leaf(toks[0]@)), Box::new(leaf(toks[2]@))));
        lemma_chain_loop(toks, l3, 3);
    }
}

proof fn lemma_chain_loop(toks: Seq<Token>, l: int, k: int)
    requires
        one_level_chain(toks),
        0 < k <= toks.len(),
        k % 2 == 1,
    ensures
        parse_loop(toks, l, k, Precedence::Lowest, true, Some(left_chain(toks, k))).0 == Ok::<
            Tree,
            Fault,
        >(left_chain(toks, toks.len() as int)),
    decreases toks.len() - k,
{
    if k < toks.len() {
        let t = toks[k]@;
        assert(operator_of(t) is Some);
        let np = token_precedence(t);
        lemma_chain_operand(toks, k + 1, tighter(np));
        let (rhs, l3, r3) = parse_from(toks, k + 1, k + 1, tighter(np), false);
        lemma_chain_loop(toks, l3, k + 2);
    }
}

pub struct Parser {
    tokens: Vec<Token>,
    n_tokens: usize,
    l: usize,
    r: usize,
}

impl Parser {
    /// The tokens being parsed.
    pub closed spec fn tokens(&self) -> Seq<Token> {
        self.tokens@
    }

    /// The trailing cursor: start of the operand being resolved.
    pub closed spec fn trailing(&self) -> int {
        self.l as int
    }

    /// The leading cursor: the next token to decide on.
    pub closed spec fn leading(&self) -> int {
        self.r as int
    }

    /// Number of tokens at and after the leading cursor.
    pub closed spec fn unread(&self) -> int {
        self.n_tokens - self.r
    }

    pub closed spec fn wf(&self) -> bool {
        &&& self.n_tokens == self.tokens@.len()
        &&& self.l <= self.n_tokens
        &&& self.r <= self.n_tokens
    }

    pub fn new(tokens: Vec<Token>) -> (p: Parser)
        ensures
            p.wf(),
            p.tokens() == tokens@,
            p.trailing() == 0,
            p.leading() == 0,
    {
        Parser { n_tokens: tokens.len(), tokens, l: 0, r: 0 }
    }

    fn step(&mut self)
        requires
            old(self).wf(),
            old(self).r < old(self).n_tokens,
        ensures
            final(self).wf(),
            final(self).tokens@ == old(self).tokens@,
            final(self).r == old(self).r + 1,
            final(self).l == final(self).r,
    {
        self.r = self.r + 1;
        self.l = self.r;
    }

    fn incr_leading(&mut self) -> (res: Result<(), ParseError>)
        requires
            old(self).wf(),
        ensures
            final(self).wf(),
            final(self).tokens@ == old(self).tokens@,
            final(self).l == old(self).l,
            old(self).r == old(self).n_tokens ==> (res matches Err(ParseError::ReachedEnd)
                && final(self).r == old(self).r),
            old(self).r < old(self).n_tokens ==> res is Ok && final(self).r == old(self).r + 1,
    {
        if self.r == self.n_tokens {
            return Err(ParseError::ReachedEnd);
        }
        self.r = self.r + 1;
        Ok(())
    }

    fn incr_trailing(&mut self)
        requires
            old(self).wf(),
            old(self).l < old(self).n_tokens,
        ensures
            final(self).wf(),
            final(self).tokens@ == old(self).tokens@,
            final(self).r == old(self).r,
            final(self).l == old(self).l + 1,
    {
        self.l = self.l + 1;
    }

    /// Parses from the leading cursor the largest unit allowed at `precedence`.
    ///
    /// An operator binding less tightly than `precedence` ends the unit and is left
    /// for the caller. The right-hand side of an operator is parsed at the next
    /// tighter level, so that operators of one level group to the left. An opening
    /// parenthesis starts a nested unit that its closing parenthesis ends: the right-hand
    /// side of an operator stops at a closing parenthesis and leaves it to the unit that
    /// the opening one started, or to this outermost parse, which consumes it. `=` makes
    /// the token at the trailing cursor the target of an assignment, wherever it stands
    /// in the expression. Any other token is skipped without a diagnostic.
    pub fn parse(&mut self, precedence: Precedence) -> (res: Result<Node, ParseError>)
        requires
            old(self).wf(),
        ensures
            final(self).wf(),
            final(self).tokens() == old(self).tokens(),
            old(self).leading() <= final(self).leading(),
            res matches Ok(n) ==> is_expr(n),
            ({
                let (s, l, r) = parse_from(
                    old(self).tokens(),
                    old(self).trailing(),
                    old(self).leading(),
                    precedence,
                    true,
                );
                same_outcome(res, s) && final(self).trailing() == l && final(self).leading() == r
            }),
            ends_unfinished(old(self).tokens()) && (old(self).leading() < old(self).tokens().len()
                || old(self).trailing() >= old(self).tokens().len()) ==> (res is Err || (
            final(self).leading() < final(self).tokens().len() && rank(
                token_precedence(final(self).tokens()[final(self).leading()]@),
            ) < rank(precedence))),
            ends_unfinished(old(self).tokens()) && old(self).leading() == 0 && precedence
                == Precedence::Lowest ==> res is Err,
            cut_after_operator(old(self).tokens()) && old(self).leading() == 0
                && old(self).trailing() == 0 && precedence == Precedence::Lowest ==> res matches Err(
                ParseError::ReachedEnd,
            ),
            one_level_chain(old(self).tokens()) && old(self).leading() == 0 && old(self).trailing()
                == 0 && precedence == Precedence::Lowest ==> (res matches Ok(n) && tree(n)
                == left_chain(old(self).tokens(), old(self).tokens().len() as int)),
    {
        proof {
            if cut_after_operator(self.tokens@) && self.r == 0 && self.l == 0 && precedence
                == Precedence::Lowest {
                lemma_cut_from(self.tokens@, 0, precedence, true);
            }
            if one_level_chain(self.tokens@) && self.r == 0 && self.l == 0 && precedence
                == Precedence::Lowest {
                lemma_chain_from_start(self.tokens@);
            }
        }
        self.parse_level(precedence, true)
    }

    fn parse_level(&mut self, precedence: Precedence, closes: bool) -> (res: Result<Node, ParseError>)
        requires
            old(self).wf(),
        ensures
            final(self).wf(),
            final(self).tokens() == old(self).tokens(),
            old(self).leading() <= final(self).leading(),
            res matches Ok(n) ==> is_expr(n),
            ({
                let (s, l, r) = parse_from(
                    old(self).tokens(),
                    old(self).trailing(),
                    old(self).leading(),
                    precedence,
                    closes,
                );
                same_outcome(res, s) && final(self).trailing() == l && final(self).leading() == r
            }),
            ends_unfinished(old(self).tokens()) && (old(self).leading() < old(self).tokens().len()
                || old(self).trailing() >= old(self).tokens().len()) ==> (res is Err || (
            final(self).leading() < final(self).tokens().len() && rank(
                token_precedence(final(self).tokens()[final(self).leading()]@),
            ) < rank(precedence))),
            ends_unfinished(old(self).tokens()) && old(self).leading() == 0 && precedence
                == Precedence::Lowest ==> res is Err,
        decreases old(self).unread(),
    {
        let ghost r0 = self.r;
        let mut node: Option<Node> = None;
        while self.r < self.n_tokens
            invariant
                self.wf(),
                self.tokens@ == old(self).tokens@,
                self.n_tokens == old(self).n_tokens,
                r0 == old(self).r,
                r0 <= self.r,
                node matches Some(n) ==> is_expr(n),
                parse_loop(self.tokens@, self.l as int, self.r as int, precedence, closes, opt_tree(node))
                    == parse_from(old(self).tokens@, old(self).l as int, old(self).r as int, precedence, closes),
                ends_unfinished(old(self).tokens@) && (old(self).r < old(self).n_tokens
                    || old(self).l >= old(self).n_tokens) ==> (self.r < self.n_tokens || (
                node is None && self.l >= self.n_tokens)),
            decreases self.n_tokens - self.r,
        {
            let tok = self.tokens[self.r].duplicate();
            match tok.as_operator() {
                Some(_) => {
                    let new_precedence = Self::get_precedence(&tok);
                    if new_precedence.rank() < precedence.rank() {
                        return match node {
                            Some(n) => Ok(n),
                            None => self.get_operand_node(),
                        };
                    }
                    let lhs = match node {
                        Some(n) => n,
                        None => match self.get_operand_node() {
                            Ok(n) => n,
                            Err(e) => return Err(e),
                        },
                    };
                    self.step();
                    let rhs = match self.parse_level(new_precedence.tighter(), false) {
                        Ok(n) => n,
                        Err(e) => return Err(e),
                    };
                    node = match Self::get_binary_node(tok, lhs, rhs) {
                        Ok(n) => Some(n),
                        Err(e) => return Err(e),
                    };
                },
                None => {
                    if let Token::LParen = tok {
                        if let Err(e) = self.incr_leading() {
                            return Err(e);
                        }
                        node = match self.parse_level(Precedence::Lowest, true) {
                            Ok(n) => Some(n),
                            Err(e) => return Err(e),
                        };
                    } else if let Token::RParen = tok {
                        let n = match node {
                            Some(n) => n,
                            None => match self.get_operand_node() {
                                Ok(n) => n,
                                Err(e) => return Err(e),
                            },
                        };
                        if closes {
                            if let Err(e) = self.incr_leading() {
                                return Err(e);
                            }
                        }
                        return Ok(n);
                    } else if let Token::Eq = tok {
                        if self.l >= self.n_tokens {
                            return Err(ParseError::ReachedEnd);
                        }
                        let identifier = match &self.tokens[self.l] {
                            Token::Ident(name) => Identifier::new(name.clone()),
                            _ => return Err(ParseError::InvalidTypeData),
                        };
                        self.step();
                        let expr = match self.parse_level(Precedence::Lowest, closes) {
                            Ok(n) => n,
                            Err(e) => return Err(e),
                        };
                        return Ok(Node::Assignment(AssignmentStmt::new(identifier, Box::new(expr))));
                    } else if let Err(e) = self.incr_leading() {
                        return Err(e);
                    }
                },
            }
        }
        match node {
            Some(n) => Ok(n),
            None => self.get_operand_node(),
        }
    }

    /// Precedence of a token: that of its operator, `Lowest` for any other token.
    fn get_precedence(token: &Token) -> (p: Precedence)
        ensures
            p == token_precedence(token@),
    {
        match token.as_operator() {
            Some(op) => op.precedence(),
            None => Precedence::Lowest,
        }
    }

    /// Resolves the operand at the trailing cursor, after any opening parentheses
    /// there: an integer literal or an identifier.
    pub fn get_operand_node(&mut self) -> (res: Result<Node, ParseError>)
        requires
            old(self).wf(),
        ensures
            final(self).wf(),
            final(self).tokens() == old(self).tokens(),
            final(self).leading() == old(self).leading(),
            res matches Ok(n) ==> is_expr(n),
            ({
                let (s, l) = operand_at(old(self).tokens(), old(self).trailing());
                same_outcome(res, s) && final(self).trailing() == l
            }),
    {
        while self.l < self.n_tokens && matches!(self.tokens[self.l], Token::LParen)
            invariant
                self.wf(),
                self.tokens@ == old(self).tokens@,
                self.r == old(self).r,
                skip_open_parens(self.tokens@, self.l as int) == skip_open_parens(
                    old(self).tokens@,
                    old(self).l as int,
                ),
            decreases self.n_tokens - self.l,
        {
            self.incr_trailing();
        }
        if self.l >= self.n_tokens {
            return Err(ParseError::ReachedEnd);
        }
        match &self.tokens[self.l] {
            Token::IntLiteral(v) => Ok(Node::Integer(IntegerNode { value: *v })),
            Token::Ident(name) => Ok(Node::Ident(Identifier::new(name.clone()))),
            _ => Err(ParseError::InvalidTypeData),
        }
    }

    /// A binary expression node over `op_token` with the two operands.
    pub fn get_binary_node(op_token: Token, l: Node, r: Node) -> (res: Result<Node, ParseError>)
        ensures
            res matches Ok(Node::Binary(b)) && b.op == op_token && *b.l == l && *b.r == r,
    {
        Ok(Node::Binary(BinaryExpr::new(op_token, Box::new(l), Box::new(r))))
    }
}

} // verus!
