//! Lexical categories, their canonical text, and the arithmetic operators.
use vstd::prelude::*;

use crate::parser::Precedence;
use crate::text::{int_text, push_int};

verus! {

/// A token paired with the byte offset at which it starts in the source.
pub type SpannedToken = (usize, Token);

#[derive(Debug)]
pub enum Token {
    Spaces(usize),
    IntLiteral(i32),
    StrLiteral(String),
    Ident(String),
    Newline,
    LParen,
    RParen,
    Add,
    Sub,
    Mul,
    Div,
    AddEq,
    SubEq,
    MulEq,
    DivEq,
    Bang,
    BangEq,
    Eq,
    DoubleEq,
    Not,
    And,
    Or,
    Arrow,
    Colon,
    Semicolon,
    Walrus,
    Mut,
    If,
    Else,
    Return,
}

/// The mathematical value of a token: strings become character sequences.
pub enum TokenView {
    Spaces(nat),
    IntLiteral(int),
    StrLiteral(Seq<char>),
    Ident(Seq<char>),
    Newline,
    LParen,
    RParen,
    Add,
    Sub,
    Mul,
    Div,
    AddEq,
    SubEq,
    MulEq,
    DivEq,
    Bang,
    BangEq,
    Eq,
    DoubleEq,
    Not,
    And,
    Or,
    Arrow,
    Colon,
    Semicolon,
    Walrus,
    Mut,
    If,
    Else,
    Return,
}

impl View for Token {
    type V = TokenView;

    open spec fn view(&self) -> TokenView {
        match self {
            Token::Spaces(n) => TokenView::Spaces(*n as nat),
            Token::IntLiteral(i) => TokenView::IntLiteral(*i as int),
            Token::StrLiteral(s) => TokenView::StrLiteral(s@),
            Token::Ident(s) => TokenView::Ident(s@),
            Token::Newline => TokenView::Newline,
            Token::LParen => TokenView::LParen,
            Token::RParen => TokenView::RParen,
            Token::Add => TokenView::Add,
            Token::Sub => TokenView::Sub,
            Token::Mul => TokenView::Mul,
            Token::Div => TokenView::Div,
            Token::AddEq => TokenView::AddEq,
            Token::SubEq => TokenView::SubEq,
            Token::MulEq => TokenView::MulEq,
            Token::DivEq => TokenView::DivEq,
            Token::Bang => TokenView::Bang,
            Token::BangEq => TokenView::BangEq,
            Token::Eq => TokenView::Eq,
            Token::DoubleEq => TokenView::DoubleEq,
            Token::Not => TokenView::Not,
            Token::And => TokenView::And,
            Token::Or => TokenView::Or,
            Token::Arrow => TokenView::Arrow,
            Token::Colon => TokenView::Colon,
            Token::Semicolon => TokenView::Semicolon,
            Token::Walrus => TokenView::Walrus,
            Token::Mut => TokenView::Mut,
            Token::If => TokenView::If,
            Token::Else => TokenView::Else,
            Token::Return => TokenView::Return,
        }
    }
}

/// `n` space characters.
pub open spec fn spaces_text(n: nat) -> Seq<char> {
    Seq::new(n, |i: int| ' ')
}

/// The canonical text of a token, used in diagnostics and in rendered trees.
pub open spec fn token_text(t: TokenView) -> Seq<char> {
    match t {
        TokenView::Spaces(n) => spaces_text(n),
        TokenView::IntLiteral(i) => int_text(i),
        TokenView::StrLiteral(s) => s,
        TokenView::Ident(s) => s,
        TokenView::Newline => "\\n"@,
        TokenView::LParen => "("@,
        TokenView::RParen => ")"@,
        TokenView::Add => "+"@,
        TokenView::Sub => "-"@,
        TokenView::Mul => "*"@,
        TokenView::Div => "/"@,
        TokenView::AddEq => "+="@,
        TokenView::SubEq => "-="@,
        TokenView::MulEq => "*="@,
        TokenView::DivEq => "/="@,
        TokenView::Bang => "!"@,
        TokenView::BangEq => "!="@,
        TokenView::Eq => "="@,
        TokenView::DoubleEq => "=="@,
        TokenView::Not => "not"@,
        TokenView::And => "and"@,
        TokenView::Or => "or"@,
        TokenView::Arrow => "->"@,
        TokenView::Colon => ":"@,
        TokenView::Semicolon => ";"@,
        TokenView::Walrus => ":="@,
        TokenView::Mut => "mut"@,
        TokenView::If => "if"@,
        TokenView::Else => "else"@,
        TokenView::Return => "return"@,
    }
}

/// The operator that an arithmetic token stands for, if it is one.
pub open spec fn operator_of(t: TokenView) -> Option<Operator> {
    match t {
        TokenView::Add => Some(Operator::Add),
        TokenView::Sub => Some(Operator::Sub),
        TokenView::Mul => Some(Operator::Mul),
        TokenView::Div => Some(Operator::Div),
        _ => None,
    }
}

fn fixed_text(t: &Token) -> (r: &'static str)
    requires
        !(t is Spaces || t is IntLiteral || t is StrLiteral || t is Ident),
    ensures
        r@ == token_text(t@),
{
    match t {
        Token::Newline => "\\n",
        Token::LParen => "(",
        Token::RParen => ")",
        Token::Add => "+",
        Token::Sub => "-",
        Token::Mul => "*",
        Token::Div => "/",
        Token::AddEq => "+=",
        Token::SubEq => "-=",
        Token::MulEq => "*=",
        Token::DivEq => "/=",
        Token::Bang => "!",
        Token::BangEq => "!=",
        Token::Eq => "=",
        Token::DoubleEq => "==",
        Token::Not => "not",
        Token::And => "and",
        Token::Or => "or",
        Token::Arrow => "->",
        Token::Colon => ":",
        Token::Semicolon => ";",
        Token::Walrus => ":=",
        Token::Mut => "mut",
        Token::If => "if",
        Token::Else => "else",
        _ => "return",
    }
}

impl Token {
    /// Appends the canonical text of this token to `out`.
    pub fn write_text(&self, out: &mut String)
        ensures
            final(out)@ == old(out)@ + token_text(self@),
    {
        match self {
            Token::Spaces(n) => {
                let ghost start = out@;
                let mut k: usize = 0;
                while k < *n
                    invariant
                        k <= *n,
                        out@ == start + spaces_text(k as nat),
                    decreases *n - k,
                {
                    out.append(" ");
                    proof {
                        reveal_strlit(" ");
                        assert(out@ =~= start + spaces_text((k + 1) as nat));
                    }
                    k = k + 1;
                }
            },
            Token::IntLiteral(i) => push_int(out, *i),
            Token::StrLiteral(s) => out.append(s.as_str()),
            Token::Ident(s) => out.append(s.as_str()),
            _ => out.append(fixed_text(self)),
        }
    }

    /// The canonical text of this token.
    pub fn text(&self) -> (r: String)
        ensures
            r@ == token_text(self@),
    {
        let mut out = String::new();
        self.write_text(&mut out);
        assert(out@ =~= token_text(self@));
        out
    }

    /// Length of the canonical text, counted in characters.
    pub fn src_len(&self) -> (r: usize)
        ensures
            r == token_text(self@).len(),
    {
        self.text().unicode_len()
    }

    /// A copy of this token.
    pub fn duplicate(&self) -> (r: Token)
        ensures
            r@ == self@,
    {
        match self {
            Token::Spaces(n) => Token::Spaces(*n),
            Token::IntLiteral(i) => Token::IntLiteral(*i),
            Token::StrLiteral(s) => Token::StrLiteral(s.clone()),
            Token::Ident(s) => Token::Ident(s.clone()),
            Token::Newline => Token::Newline,
            Token::LParen => Token::LParen,
            Token::RParen => Token::RParen,
            Token::Add => Token::Add,
            Token::Sub => Token::Sub,
            Token::Mul => Token::Mul,
            Token::Div => Token::Div,
            Token::AddEq => Token::AddEq,
            Token::SubEq => Token::SubEq,
            Token::MulEq => Token::MulEq,
            Token::DivEq => Token::DivEq,
            Token::Bang => Token::Bang,
            Token::BangEq => Token::BangEq,
            Token::Eq => Token::Eq,
            Token::DoubleEq => Token::DoubleEq,
            Token::Not => Token::Not,
            Token::And => Token::And,
            Token::Or => Token::Or,
            Token::Arrow => Token::Arrow,
            Token::Colon => Token::Colon,
            Token::Semicolon => Token::Semicolon,
            Token::Walrus => Token::Walrus,
            Token::Mut => Token::Mut,
            Token::If => Token::If,
            Token::Else => Token::Else,
            Token::Return => Token::Return,
        }
    }

    /// The arithmetic operator this token stands for; `None` for any other token.
    pub fn as_operator(&self) -> (r: Option<Operator>)
        ensures
            r == operator_of(self@),
    {
        match self {
            Token::Add => Some(Operator::Add),
            Token::Sub => Some(Operator::Sub),
            Token::Mul => Some(Operator::Mul),
            Token::Div => Some(Operator::Div),
            _ => None,
        }
    }
}

#[derive(Debug, Clone, Copy, PartialEq, Eq, Structural)]
pub enum Operator {
    Add,
    Sub,
    Div,
    Mul,
}

/// Binding strength of an operator: addition and subtraction share the lower
/// level, multiplication and division the higher one.
pub open spec fn operator_precedence(op: Operator) -> Precedence {
    match op {
        Operator::Add | Operator::Sub => Precedence::AddSub,
        Operator::Mul | Operator::Div => Precedence::MulDiv,
    }
}

/// The text of an operator.
pub open spec fn operator_text(op: Operator) -> Seq<char> {
    match op {
        Operator::Add => "+"@,
        Operator::Sub => "-"@,
        Operator::Mul => "*"@,
        Operator::Div => "/"@,
    }
}

impl Operator {
    pub fn precedence(&self) -> (r: Precedence)
        ensures
            r == operator_precedence(*self),
    {
        match self {
            Operator::Add | Operator::Sub => Precedence::AddSub,
            Operator::Mul | Operator::Div => Precedence::MulDiv,
        }
    }

    /// The text of this operator.
    pub fn text(&self) -> (r: String)
        ensures
            r@ == operator_text(*self),
    {
        match self {
            Operator::Add => String::from_str("+"),
            Operator::Sub => String::from_str("-"),
            Operator::Mul => String::from_str("*"),
            Operator::Div => String::from_str("/"),
        }
    }
}

} // verus!
