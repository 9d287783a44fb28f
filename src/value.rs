use vstd::prelude::*;
use crate::number::{checked, Number};
use crate::text::{chars_of, push_text, text_of};

verus! {

/// A runtime value.
#[derive(Clone, Debug)]
pub enum Value {
    Boolean(bool),
    Null,
    String(String),
    Number(Number),
}

/// A runtime failure: it aborts the statement being executed.
#[derive(Clone, Debug)]
pub enum InterpreterError {
    /// An operator met operands of a kind it does not take.
    TypeMismatch,
    /// A name was read that no declaration has bound.
    UndefinedVariable(String),
    /// A number was divided by zero.
    DivisionByZero,
    /// A result or a negation does not fit the number representation.
    NumberOutOfRange,
    /// A tree that the parser does not build: a literal without its value, or an
    /// operator token that is not one.
    MalformedExpression,
}

/// The mathematical model of a value: text as a character sequence.
pub enum ValueModel {
    Boolean(bool),
    Null,
    String(Seq<char>),
    Number(Number),
}

/// The mathematical model of a runtime failure.
pub enum ErrorModel {
    TypeMismatch,
    UndefinedVariable(Seq<char>),
    DivisionByZero,
    NumberOutOfRange,
    MalformedExpression,
}

impl View for Value {
    type V = ValueModel;

    open spec fn view(&self) -> ValueModel {
        match self {
            Value::Boolean(b) => ValueModel::Boolean(*b),
            Value::Null => ValueModel::Null,
            Value::String(s) => ValueModel::String(s@),
            Value::Number(n) => ValueModel::Number(*n),
        }
    }
}

impl View for InterpreterError {
    type V = ErrorModel;

    open spec fn view(&self) -> ErrorModel {
        match self {
            InterpreterError::TypeMismatch => ErrorModel::TypeMismatch,
            InterpreterError::UndefinedVariable(s) => ErrorModel::UndefinedVariable(s@),
            InterpreterError::DivisionByZero => ErrorModel::DivisionByZero,
            InterpreterError::NumberOutOfRange => ErrorModel::NumberOutOfRange,
            InterpreterError::MalformedExpression => ErrorModel::MalformedExpression,
        }
    }
}

/// The model of an evaluation outcome.
pub open spec fn outcome(r: Result<Value, InterpreterError>) -> Result<ValueModel, ErrorModel> {
    match r {
        Ok(v) => Ok(v@),
        Err(e) => Err(e@),
    }
}

/// The message that reports a runtime failure.
pub open spec fn error_text(e: ErrorModel) -> Seq<char> {
    match e {
        ErrorModel::TypeMismatch => "Operands do not suit the operator."@,
        ErrorModel::UndefinedVariable(name) => "Undefined variable '"@ + name + "'."@,
        ErrorModel::DivisionByZero => "Division by zero."@,
        ErrorModel::NumberOutOfRange => "Number out of range."@,
        ErrorModel::MalformedExpression => "Malformed expression."@,
    }
}

impl InterpreterError {
    /// The message that reports the failure.
    pub fn message(&self) -> (r: String)
        ensures
            r@ == error_text(self@),
    {
        match self {
            InterpreterError::TypeMismatch => "Operands do not suit the operator.".to_owned(),
            InterpreterError::UndefinedVariable(name) => {
                let mut out = chars_of("Undefined variable '");
                push_text(&mut out, name.as_str());
                push_text(&mut out, "'.");
                text_of(out.as_slice())
            },
            InterpreterError::DivisionByZero => "Division by zero.".to_owned(),
            InterpreterError::NumberOutOfRange => "Number out of range.".to_owned(),
            InterpreterError::MalformedExpression => "Malformed expression.".to_owned(),
        }
    }
}

/// Everything is truthy except `nil` and `false`.
pub open spec fn truthy(a: ValueModel) -> bool {
    match a {
        ValueModel::Null => false,
        ValueModel::Boolean(b) => b,
        _ => true,
    }
}

pub open spec fn number_outcome(r: Option<Number>) -> Result<ValueModel, ErrorModel> {
    match r {
        Some(n) => Ok(ValueModel::Number(n)),
        None => Err(ErrorModel::NumberOutOfRange),
    }
}

pub open spec fn negated(a: ValueModel) -> Result<ValueModel, ErrorModel> {
    match a {
        ValueModel::Number(x) => number_outcome(checked((-x.numer(), x.denom()))),
        _ => Err(ErrorModel::TypeMismatch),
    }
}

/// `+`: numbers add, texts concatenate; anything else is a type mismatch.
pub open spec fn sum(a: ValueModel, b: ValueModel) -> Result<ValueModel, ErrorModel> {
    match (a, b) {
        (ValueModel::Number(x), ValueModel::Number(y)) => number_outcome(checked(Number::sum_parts(x, y))),
        (ValueModel::String(s), ValueModel::String(t)) => Ok(ValueModel::String(s + t)),
        _ => Err(ErrorModel::TypeMismatch),
    }
}

pub open spec fn difference(a: ValueModel, b: ValueModel) -> Result<ValueModel, ErrorModel> {
    match (a, b) {
        (ValueModel::Number(x), ValueModel::Number(y)) => number_outcome(
            checked(Number::difference_parts(x, y)),
        ),
        _ => Err(ErrorModel::TypeMismatch),
    }
}

pub open spec fn product(a: ValueModel, b: ValueModel) -> Result<ValueModel, ErrorModel> {
    match (a, b) {
        (ValueModel::Number(x), ValueModel::Number(y)) => number_outcome(checked(Number::product_parts(x, y))),
        _ => Err(ErrorModel::TypeMismatch),
    }
}

/// `/`: numbers only; a zero divisor is an error.
pub open spec fn quotient(a: ValueModel, b: ValueModel) -> Result<ValueModel, ErrorModel> {
    match (a, b) {
        (ValueModel::Number(x), ValueModel::Number(y)) => if y.numer() == 0 {
            Err(ErrorModel::DivisionByZero)
        } else {
            number_outcome(checked(Number::quotient_parts(x, y)))
        },
        _ => Err(ErrorModel::TypeMismatch),
    }
}

/// A comparison of two numbers; `strict` asks for `<`, otherwise `<=`; `flip` swaps the operands.
pub open spec fn compared(a: ValueModel, b: ValueModel, strict: bool, flip: bool) -> Result<ValueModel, ErrorModel> {
    match (a, b) {
        (ValueModel::Number(x), ValueModel::Number(y)) => {
            let (l, r) = if flip { (y, x) } else { (x, y) };
            Ok(ValueModel::Boolean(if strict { Number::below(l, r) } else { !Number::below(r, l) }))
        },
        _ => Err(ErrorModel::TypeMismatch),
    }
}

/// Equality: same variant and same value; never an error, no coercion.
pub open spec fn equal_values(a: ValueModel, b: ValueModel) -> bool {
    match (a, b) {
        (ValueModel::Boolean(p), ValueModel::Boolean(q)) => p == q,
        (ValueModel::Null, ValueModel::Null) => true,
        (ValueModel::String(s), ValueModel::String(t)) => s == t,
        (ValueModel::Number(x), ValueModel::Number(y)) => Number::same_value(x, y),
        _ => false,
    }
}

/// The display text of a value.
pub open spec fn display(a: ValueModel) -> Seq<char> {
    match a {
        ValueModel::Boolean(b) => if b {
            "true"@
        } else {
            "false"@
        },
        ValueModel::Null => "nil"@,
        ValueModel::String(s) => s,
        ValueModel::Number(x) => x.display(),
    }
}

/// Equality is reflexive.
pub proof fn lemma_equal_reflexive(a: ValueModel)
    ensures
        equal_values(a, a),
{
}

/// Equality is symmetric.
pub proof fn lemma_equal_symmetric(a: ValueModel, b: ValueModel)
    ensures
        equal_values(a, b) == equal_values(b, a),
{
}

/// Values of different variants are never equal.
pub proof fn lemma_equal_needs_same_variant(a: ValueModel, b: ValueModel)
    requires
        equal_values(a, b),
    ensures
        (a is Boolean && b is Boolean) || (a is Null && b is Null) || (a is String && b is String) || (
        a is Number && b is Number),
{
}

impl Value {
    /// A copy of the value.
    pub fn cloned(&self) -> (r: Value)
        ensures
            r == *self,
    {
        match self {
            Value::Boolean(b) => Value::Boolean(*b),
            Value::Null => Value::Null,
            Value::String(s) => Value::String(s.clone()),
            Value::Number(n) => Value::Number(*n),
        }
    }

    pub fn is_truthy(&self) -> (r: bool)
        ensures
            r == truthy(self@),
    {
        match self {
            Value::Null => false,
            Value::Boolean(b) => *b,
            _ => true,
        }
    }

    fn from_number(r: Option<Number>) -> (v: Result<Value, InterpreterError>)
        ensures
            outcome(v) == number_outcome(r),
    {
        match r {
            Some(n) => Ok(Value::Number(n)),
            None => Err(InterpreterError::NumberOutOfRange),
        }
    }

    pub fn negate(&self) -> (r: Result<Value, InterpreterError>)
        ensures
            outcome(r) == negated(self@),
    {
        match self {
            Value::Number(n) => Value::from_number(n.negate()),
            _ => Err(InterpreterError::TypeMismatch),
        }
    }

    pub fn not(&self) -> (r: Result<Value, InterpreterError>)
        ensures
            outcome(r) == Ok::<ValueModel, ErrorModel>(ValueModel::Boolean(!truthy(self@))),
    {
        Ok(Value::Boolean(!self.is_truthy()))
    }

    pub fn add(&self, other: Value) -> (r: Result<Value, InterpreterError>)
        ensures
            outcome(r) == sum(self@, other@),
    {
        match (self, other) {
            (Value::Number(x), Value::Number(y)) => Value::from_number(x.add(&y)),
            (Value::String(s), Value::String(t)) => {
                let mut out = chars_of(s.as_str());
                push_text(&mut out, t.as_str());
                Ok(Value::String(text_of(out.as_slice())))
            },
            _ => Err(InterpreterError::TypeMismatch),
        }
    }

    pub fn subtract(&self, other: Value) -> (r: Result<Value, InterpreterError>)
        ensures
            outcome(r) == difference(self@, other@),
    {
        match (self, other) {
            (Value::Number(x), Value::Number(y)) => Value::from_number(x.subtract(&y)),
            _ => Err(InterpreterError::TypeMismatch),
        }
    }

    pub fn multiply(&self, other: Value) -> (r: Result<Value, InterpreterError>)
        ensures
            outcome(r) == product(self@, other@),
    {
        match (self, other) {
            (Value::Number(x), Value::Number(y)) => Value::from_number(x.multiply(&y)),
            _ => Err(InterpreterError::TypeMismatch),
        }
    }

    pub fn divide(&self, other: Value) -> (r: Result<Value, InterpreterError>)
        ensures
            outcome(r) == quotient(self@, other@),
    {
        match (self, other) {
            (Value::Number(x), Value::Number(y)) => {
                if y.is_zero() {
                    Err(InterpreterError::DivisionByZero)
                } else {
                    Value::from_number(x.divide(&y))
                }
            },
            _ => Err(InterpreterError::TypeMismatch),
        }
    }

    pub fn greater(&self, other: Value) -> (r: Result<Value, InterpreterError>)
        ensures
            outcome(r) == compared(self@, other@, true, true),
    {
        match (self, other) {
            (Value::Number(x), Value::Number(y)) => Ok(Value::Boolean(y.less(x))),
            _ => Err(InterpreterError::TypeMismatch),
        }
    }

    pub fn greater_equal(&self, other: Value) -> (r: Result<Value, InterpreterError>)
        ensures
            outcome(r) == compared(self@, other@, false, true),
    {
        match (self, other) {
            (Value::Number(x), Value::Number(y)) => Ok(Value::Boolean(!x.less(&y))),
            _ => Err(InterpreterError::TypeMismatch),
        }
    }

    pub fn less(&self, other: Value) -> (r: Result<Value, InterpreterError>)
        ensures
            outcome(r) == compared(self@, other@, true, false),
    {
        match (self, other) {
            (Value::Number(x), Value::Number(y)) => Ok(Value::Boolean(x.less(&y))),
            _ => Err(InterpreterError::TypeMismatch),
        }
    }

    pub fn less_equal(&self, other: Value) -> (r: Result<Value, InterpreterError>)
        ensures
            outcome(r) == compared(self@, other@, false, false),
    {
        match (self, other) {
            (Value::Number(x), Value::Number(y)) => Ok(Value::Boolean(!y.less(x))),
            _ => Err(InterpreterError::TypeMismatch),
        }
    }

    pub fn is_equal(&self, other: Value) -> (r: bool)
        ensures
            r == equal_values(self@, other@),
    {
        match (self, other) {
            (Value::Number(x), Value::Number(y)) => x.equals(&y),
            (Value::Boolean(p), Value::Boolean(q)) => *p == q,
            (Value::String(s), Value::String(t)) => *s == t,
            (Value::Null, Value::Null) => true,
            _ => false,
        }
    }

    pub fn equals(&self, other: Value) -> (r: Result<Value, InterpreterError>)
        ensures
            outcome(r) == Ok::<ValueModel, ErrorModel>(ValueModel::Boolean(equal_values(self@, other@))),
    {
        Ok(Value::Boolean(self.is_equal(other)))
    }

    pub fn not_equals(&self, other: Value) -> (r: Result<Value, InterpreterError>)
        ensures
            outcome(r) == Ok::<ValueModel, ErrorModel>(ValueModel::Boolean(!equal_values(self@, other@))),
    {
        Ok(Value::Boolean(!self.is_equal(other)))
    }

    /// The value as a print statement shows it.
    pub fn stringify(&self) -> (r: String)
        ensures
            r@ == display(self@),
    {
        match self {
            Value::Number(n) => {
                let digits = n.stringify();
                text_of(digits.as_slice())
            },
            Value::Boolean(b) => {
                if *b {
                    "true".to_owned()
                } else {
                    "false".to_owned()
                }
            },
            Value::String(s) => s.clone(),
            Value::Null => "nil".to_owned(),
        }
    }
}

} // verus!
