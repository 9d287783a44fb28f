use vstd::prelude::*;
use crate::text::{push_text, text_of};
use crate::token::{Token, TokenType};

verus! {

/// An expression tree; each node owns its children.
#[derive(Debug)]
pub enum Expression {
    Binary(BinaryExpression),
    Grouping(GroupingExpression),
    Literal(LiteralExpression),
    Unary(UnaryExpression),
    Variable(VarExpression),
}

#[derive(Debug)]
pub struct BinaryExpression {
    pub left: Box<Expression>,
    pub operator: Token,
    pub right: Box<Expression>,
}

#[derive(Debug)]
pub struct GroupingExpression {
    pub expression: Box<Expression>,
}

/// A literal; the string and number forms keep their token, whose literal value they denote.
#[derive(Debug)]
pub enum LiteralExpression {
    Boolean(bool),
    Null(Token),
    String(Token),
    Number(Token),
}

#[derive(Debug)]
pub struct UnaryExpression {
    pub operator: Token,
    pub right: Box<Expression>,
}

#[derive(Debug)]
pub struct VarExpression {
    pub name: Token,
}

/// A statement of the language.
#[derive(Debug)]
pub enum Statement {
    Expression(Expression),
    Print(Expression),
    VarDeclaration(VarDeclaration),
}

#[derive(Debug)]
pub struct VarDeclaration {
    pub name: Token,
    pub initializer: Option<Expression>,
}

/// The literal expression that a literal token denotes; any other token reads as `nil`.
pub open spec fn literal_of(token: Token) -> Expression {
    match token.token_type {
        TokenType::True => Expression::Literal(LiteralExpression::Boolean(true)),
        TokenType::False => Expression::Literal(LiteralExpression::Boolean(false)),
        TokenType::String => Expression::Literal(LiteralExpression::String(token)),
        TokenType::Number => Expression::Literal(LiteralExpression::Number(token)),
        _ => Expression::Literal(LiteralExpression::Null(token)),
    }
}

/// The prefix notation of an expression: `(op left right)`, `(op right)`, `(group inner)`,
/// literals and names as written.
pub open spec fn prefix_text(e: Expression) -> Seq<char>
    decreases e,
{
    match e {
        Expression::Binary(b) => "("@ + b.operator.lexeme@ + " "@ + prefix_text(*b.left) + " "@
            + prefix_text(*b.right) + ")"@,
        Expression::Grouping(g) => "(group "@ + prefix_text(*g.expression) + ")"@,
        Expression::Literal(l) => match l {
            LiteralExpression::Boolean(b) => if b {
                "true"@
            } else {
                "false"@
            },
            LiteralExpression::Null(_) => "nil"@,
            LiteralExpression::String(t) => t.lexeme@,
            LiteralExpression::Number(t) => t.lexeme@,
        },
        Expression::Unary(u) => "("@ + u.operator.lexeme@ + " "@ + prefix_text(*u.right) + ")"@,
        Expression::Variable(v) => v.name.lexeme@,
    }
}

/// `" "` followed by the prefix notation of each expression, one after the other.
pub open spec fn spaced_texts(es: Seq<Expression>) -> Seq<char>
    decreases es.len(),
{
    if es.len() == 0 {
        Seq::empty()
    } else {
        spaced_texts(es.drop_last()) + " "@ + prefix_text(es.last())
    }
}

impl Expression {
    pub fn binary(left: Expression, operator: Token, right: Expression) -> (r: Expression)
        ensures
            r == Expression::Binary(BinaryExpression { left: Box::new(left), operator, right: Box::new(right) }),
    {
        Expression::Binary(BinaryExpression { left: Box::new(left), operator, right: Box::new(right) })
    }

    pub fn grouping(expression: Expression) -> (r: Expression)
        ensures
            r == Expression::Grouping(GroupingExpression { expression: Box::new(expression) }),
    {
        Expression::Grouping(GroupingExpression { expression: Box::new(expression) })
    }

    pub fn unary(operator: Token, right: Expression) -> (r: Expression)
        ensures
            r == Expression::Unary(UnaryExpression { operator, right: Box::new(right) }),
    {
        Expression::Unary(UnaryExpression { operator, right: Box::new(right) })
    }

    pub fn variable(name: Token) -> (r: Expression)
        ensures
            r == Expression::Variable(VarExpression { name }),
    {
        Expression::Variable(VarExpression { name })
    }

    /// The literal expression that `token` denotes.
    pub fn literal(token: Token) -> (r: Expression)
        ensures
            r == literal_of(token),
    {
        match token.token_type {
            TokenType::True => Expression::Literal(LiteralExpression::Boolean(true)),
            TokenType::False => Expression::Literal(LiteralExpression::Boolean(false)),
            TokenType::String => Expression::Literal(LiteralExpression::String(token)),
            TokenType::Number => Expression::Literal(LiteralExpression::Number(token)),
            _ => Expression::Literal(LiteralExpression::Null(token)),
        }
    }

    /// `(name e1 e2 ...)` with each expression in prefix notation.
    pub fn parenthesize(&self, name: String, expressions: Vec<Expression>) -> (r: String)
        ensures
            r@ == "("@ + name@ + spaced_texts(expressions@) + ")"@,
    {
        let mut out: Vec<char> = Vec::new();
        push_text(&mut out, "(");
        push_text(&mut out, name.as_str());
        let ghost head = out@;
        let mut i: usize = 0;
        while i < expressions.len()
            invariant
                0 <= i <= expressions@.len(),
                out@ == head + spaced_texts(expressions@.subrange(0, i as int)),
            decreases expressions@.len() - i,
        {
            push_text(&mut out, " ");
            let part = expressions[i].print();
            push_text(&mut out, part.as_str());
            proof {
                let s = expressions@.subrange(0, i + 1);
                assert(s.drop_last() =~= expressions@.subrange(0, i as int));
            }
            i = i + 1;
            assert(out@ =~= head + spaced_texts(expressions@.subrange(0, i as int)));
        }
        assert(expressions@.subrange(0, i as int) =~= expressions@);
        push_text(&mut out, ")");
        text_of(out.as_slice())
    }

    fn push_prefix(&self, out: &mut Vec<char>)
        ensures
            final(out)@ == old(out)@ + prefix_text(*self),
        decreases self,
    {
        match self {
            Expression::Binary(b) => {
                push_text(out, "(");
                push_text(out, b.operator.lexeme.as_str());
                push_text(out, " ");
                b.left.push_prefix(out);
                push_text(out, " ");
                b.right.push_prefix(out);
                push_text(out, ")");
            },
            Expression::Grouping(g) => {
                push_text(out, "(group ");
                g.expression.push_prefix(out);
                push_text(out, ")");
            },
            Expression::Literal(l) => match l {
                LiteralExpression::Boolean(b) => {
                    if *b {
                        push_text(out, "true");
                    } else {
                        push_text(out, "false");
                    }
                },
                LiteralExpression::Null(_) => push_text(out, "nil"),
                LiteralExpression::String(t) => push_text(out, t.lexeme.as_str()),
                LiteralExpression::Number(t) => push_text(out, t.lexeme.as_str()),
            },
            Expression::Unary(u) => {
                push_text(out, "(");
                push_text(out, u.operator.lexeme.as_str());
                push_text(out, " ");
                u.right.push_prefix(out);
                push_text(out, ")");
            },
            Expression::Variable(v) => push_text(out, v.name.lexeme.as_str()),
        }
    }

    /// The expression in prefix notation.
    pub fn print(&self) -> (r: String)
        ensures
            r@ == prefix_text(*self),
    {
        let mut out: Vec<char> = Vec::new();
        self.push_prefix(&mut out);
        text_of(out.as_slice())
    }
}

} // verus!
