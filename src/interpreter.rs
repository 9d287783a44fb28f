use vstd::prelude::*;
use crate::ast::{BinaryExpression, Expression, GroupingExpression, LiteralExpression, Statement, UnaryExpression, VarExpression};
use crate::environment::Environment;
use crate::token::{Literal, TokenType};
use crate::value::{
    compared, difference, display, equal_values, negated, outcome, product, quotient, sum, truthy,
    ErrorModel, ValueModel,
};
pub use crate::value::{InterpreterError, Value};

verus! {

pub type Scope = Map<Seq<char>, ValueModel>;

/// The value a literal denotes; string and number literals take their token's literal value.
pub open spec fn literal_value(l: LiteralExpression) -> Result<ValueModel, ErrorModel> {
    match l {
        LiteralExpression::Boolean(b) => Ok(ValueModel::Boolean(b)),
        LiteralExpression::Null(_) => Ok(ValueModel::Null),
        LiteralExpression::String(t) => match t.literal {
            Some(Literal::String(s)) => Ok(ValueModel::String(s@)),
            _ => Err(ErrorModel::MalformedExpression),
        },
        LiteralExpression::Number(t) => match t.literal {
            Some(Literal::Number(n)) => Ok(ValueModel::Number(n)),
            _ => Err(ErrorModel::MalformedExpression),
        },
    }
}

/// What a unary operator gives on an operand.
pub open spec fn unary_value(op: TokenType, a: ValueModel) -> Result<ValueModel, ErrorModel> {
    match op {
        TokenType::Minus => negated(a),
        TokenType::Bang => Ok(ValueModel::Boolean(!truthy(a))),
        _ => Err(ErrorModel::MalformedExpression),
    }
}

/// What a binary operator gives on two operands.
pub open spec fn binary_value(op: TokenType, a: ValueModel, b: ValueModel) -> Result<ValueModel, ErrorModel> {
    match op {
        TokenType::Plus => sum(a, b),
        TokenType::Minus => difference(a, b),
        TokenType::Slash => quotient(a, b),
        TokenType::Star => product(a, b),
        TokenType::Greater => compared(a, b, true, true),
        TokenType::GreaterEqual => compared(a, b, false, true),
        TokenType::Less => compared(a, b, true, false),
        TokenType::LessEqual => compared(a, b, false, false),
        TokenType::BangEqual => Ok(ValueModel::Boolean(!equal_values(a, b))),
        TokenType::EqualEqual => Ok(ValueModel::Boolean(equal_values(a, b))),
        _ => Err(ErrorModel::MalformedExpression),
    }
}

/// The value of an expression in a scope: operands left to right, the first failure wins.
pub open spec fn eval(e: Expression, scope: Scope) -> Result<ValueModel, ErrorModel>
    decreases e,
{
    match e {
        Expression::Literal(l) => literal_value(l),
        Expression::Grouping(g) => eval(*g.expression, scope),
        Expression::Unary(u) => match eval(*u.right, scope) {
            Ok(a) => unary_value(u.operator.token_type, a),
            Err(x) => Err(x),
        },
        Expression::Binary(b) => match eval(*b.left, scope) {
            Ok(a) => match eval(*b.right, scope) {
                Ok(c) => binary_value(b.operator.token_type, a, c),
                Err(x) => Err(x),
            },
            Err(x) => Err(x),
        },
        Expression::Variable(v) => if scope.contains_key(v.name.lexeme@) {
            Ok(scope[v.name.lexeme@])
        } else {
            Err(ErrorModel::UndefinedVariable(v.name.lexeme@))
        },
    }
}

/// What running a statement gives: its value and the text it prints, if any; or its failure.
pub type Outcome = Result<(Value, Option<String>), InterpreterError>;

/// The model of an `Outcome`.
pub type OutcomeModel = Result<(ValueModel, Option<Seq<char>>), ErrorModel>;

pub open spec fn effect(r: Outcome) -> OutcomeModel {
    match r {
        Ok((v, Some(s))) => Ok((v@, Some(s@))),
        Ok((v, None)) => Ok((v@, None)),
        Err(e) => Err(e@),
    }
}

/// What a statement produces and the scope after it: an expression statement gives the
/// expression's value, a print statement that value and its display text, a declaration
/// the value it binds. A failed statement binds nothing.
pub open spec fn executed(s: Statement, scope: Scope) -> (OutcomeModel, Scope) {
    match s {
        Statement::Expression(e) => match eval(e, scope) {
            Ok(v) => (Ok((v, None)), scope),
            Err(x) => (Err(x), scope),
        },
        Statement::Print(e) => match eval(e, scope) {
            Ok(v) => (Ok((v, Some(display(v)))), scope),
            Err(x) => (Err(x), scope),
        },
        Statement::VarDeclaration(d) => {
            let v = match d.initializer {
                Some(e) => eval(e, scope),
                None => Ok(ValueModel::Null),
            };
            match v {
                Ok(v) => (Ok((v, None)), scope.insert(d.name.lexeme@, v)),
                Err(x) => (Err(x), scope),
            }
        },
    }
}

/// The effects of running statements in order, each after the one before, failures
/// included, and the scope at the end.
pub open spec fn run_all(stmts: Seq<Statement>, scope: Scope) -> (Seq<OutcomeModel>, Scope)
    decreases stmts.len(),
{
    if stmts.len() == 0 {
        (Seq::empty(), scope)
    } else {
        let (before, mid) = run_all(stmts.drop_last(), scope);
        let (last, end) = executed(stmts.last(), mid);
        (before.push(last), end)
    }
}

/// A tree-walking evaluator over one flat scope.
pub struct Interpreter {
    environment: Environment,
}

impl Interpreter {
    /// The variables bound so far.
    pub closed spec fn scope(self) -> Scope {
        self.environment.bound()
    }

    pub fn new() -> (r: Interpreter)
        ensures
            r.scope() == Map::<Seq<char>, ValueModel>::empty(),
    {
        Interpreter { environment: Environment::new() }
    }

    fn literal(&self, expression: &LiteralExpression) -> (r: Result<Value, InterpreterError>)
        ensures
            outcome(r) == literal_value(*expression),
    {
        match expression {
            LiteralExpression::Boolean(b) => Ok(Value::Boolean(*b)),
            LiteralExpression::Null(_) => Ok(Value::Null),
            LiteralExpression::String(t) => match &t.literal {
                Some(Literal::String(s)) => Ok(Value::String(s.clone())),
                _ => Err(InterpreterError::MalformedExpression),
            },
            LiteralExpression::Number(t) => match &t.literal {
                Some(Literal::Number(n)) => Ok(Value::Number(*n)),
                _ => Err(InterpreterError::MalformedExpression),
            },
        }
    }

    fn grouping(&self, expression: &GroupingExpression) -> (r: Result<Value, InterpreterError>)
        ensures
            outcome(r) == eval(Expression::Grouping(*expression), self.scope()),
        decreases Expression::Grouping(*expression), 0int,
    {
        self.evaluate(&expression.expression)
    }

    fn unary(&self, expression: &UnaryExpression) -> (r: Result<Value, InterpreterError>)
        ensures
            outcome(r) == eval(Expression::Unary(*expression), self.scope()),
        decreases Expression::Unary(*expression), 0int,
    {
        let right = match self.evaluate(&expression.right) {
            Ok(v) => v,
            Err(x) => return Err(x),
        };
        match expression.operator.token_type {
            TokenType::Minus => right.negate(),
            TokenType::Bang => right.not(),
            _ => Err(InterpreterError::MalformedExpression),
        }
    }

    fn binary(&self, expression: &BinaryExpression) -> (r: Result<Value, InterpreterError>)
        ensures
            outcome(r) == eval(Expression::Binary(*expression), self.scope()),
        decreases Expression::Binary(*expression), 0int,
    {
        let left = match self.evaluate(&expression.left) {
            Ok(v) => v,
            Err(x) => return Err(x),
        };
        let right = match self.evaluate(&expression.right) {
            Ok(v) => v,
            Err(x) => return Err(x),
        };
        match expression.operator.token_type {
            TokenType::Plus => left.add(right),
            TokenType::Minus => left.subtract(right),
            TokenType::Slash => left.divide(right),
            TokenType::Star => left.multiply(right),
            TokenType::Greater => left.greater(right),
            TokenType::GreaterEqual => left.greater_equal(right),
            TokenType::Less => left.less(right),
            TokenType::LessEqual => left.less_equal(right),
            TokenType::BangEqual => left.not_equals(right),
            TokenType::EqualEqual => left.equals(right),
            _ => Err(InterpreterError::MalformedExpression),
        }
    }

    fn variable(&self, expression: &VarExpression) -> (r: Result<Value, InterpreterError>)
        ensures
            outcome(r) == eval(Expression::Variable(*expression), self.scope()),
    {
        self.environment.get(expression.name.cloned())
    }

    /// The value of an expression in the current scope.
    pub fn evaluate(&self, expression: &Expression) -> (r: Result<Value, InterpreterError>)
        ensures
            outcome(r) == eval(*expression, self.scope()),
        decreases *expression, 2int,
    {
        match expression {
            Expression::Binary(b) => self.binary(b),
            Expression::Grouping(g) => self.grouping(g),
            Expression::Unary(u) => self.unary(u),
            Expression::Literal(l) => self.literal(l),
            Expression::Variable(v) => self.variable(v),
        }
    }

    /// Runs one statement: its value and the text it prints, if any, or its failure.
    /// A failed statement leaves the scope as it was.
    pub fn execute(&mut self, statement: &Statement) -> (r: Outcome)
        ensures
            (effect(r), final(self).scope()) == executed(*statement, old(self).scope()),
    {
        match statement {
            Statement::Expression(e) => match self.evaluate(e) {
                Ok(v) => Ok((v, None)),
                Err(x) => Err(x),
            },
            Statement::Print(e) => match self.evaluate(e) {
                Ok(v) => {
                    let text = v.stringify();
                    Ok((v, Some(text)))
                },
                Err(x) => Err(x),
            },
            Statement::VarDeclaration(d) => {
                let value = match &d.initializer {
                    Some(e) => match self.evaluate(e) {
                        Ok(v) => v,
                        Err(x) => return Err(x),
                    },
                    None => Value::Null,
                };
                let bound = value.cloned();
                self.environment.define(d.name.lexeme.clone(), bound);
                Ok((value, None))
            },
        }
    }

    /// Runs the statements in order, going on after a failure; one effect per statement.
    pub fn interpret(&mut self, statements: &Vec<Statement>) -> (r: Vec<Outcome>)
        ensures
            r@.map_values(|x: Outcome| effect(x)) == run_all(
                statements@,
                old(self).scope(),
            ).0,
            final(self).scope() == run_all(statements@, old(self).scope()).1,
    {
        let mut out: Vec<Outcome> = Vec::new();
        let mut i: usize = 0;
        while i < statements.len()
            invariant
                0 <= i <= statements@.len(),
                out@.map_values(|x: Outcome| effect(x)) == run_all(
                    statements@.subrange(0, i as int),
                    old(self).scope(),
                ).0,
                self.scope() == run_all(statements@.subrange(0, i as int), old(self).scope()).1,
            decreases statements@.len() - i,
        {
            let r = self.execute(&statements[i]);
            let ghost before = out@;
            out.push(r);
            proof {
                let s = statements@.subrange(0, i + 1);
                assert(s.drop_last() =~= statements@.subrange(0, i as int));
                assert(out@.map_values(|x: Outcome| effect(x)) =~= before.map_values(
                    |x: Outcome| effect(x),
                ).push(effect(r)));
            }
            i = i + 1;
        }
        assert(statements@.subrange(0, i as int) =~= statements@);
        out
    }
}

} // verus!
