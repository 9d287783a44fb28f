use vstd::prelude::*;
use crate::ast::{literal_of, Expression, Statement, VarDeclaration, VarExpression, UnaryExpression, BinaryExpression, GroupingExpression};
use crate::report::token_error;
use crate::token::{Token, TokenType};

verus! {

/// What a malformed statement lacked.
#[derive(Clone, Copy, Debug, PartialEq, Eq, Structural)]
pub enum SyntaxProblem {
    ExpectExpression,
    ExpectRightParen,
    ExpectVariableName,
    ExpectSemicolonAfterValue,
    ExpectSemicolonAfterVariable,
}

/// A syntax error: the index of the offending token and what was expected there.
#[derive(Clone, Copy, Debug, PartialEq, Eq, Structural)]
pub struct ParseError {
    pub at: usize,
    pub problem: SyntaxProblem,
}

pub open spec fn problem_text(p: SyntaxProblem) -> Seq<char> {
    match p {
        SyntaxProblem::ExpectExpression => "Expect expression."@,
        SyntaxProblem::ExpectRightParen => "Expect ')' after expression."@,
        SyntaxProblem::ExpectVariableName => "Expect variable name."@,
        SyntaxProblem::ExpectSemicolonAfterValue => "Expect ';' after value."@,
        SyntaxProblem::ExpectSemicolonAfterVariable => "Expect ';' after variable declaration."@,
    }
}

impl SyntaxProblem {
    pub fn message(&self) -> (r: &'static str)
        ensures
            r@ == problem_text(*self),
    {
        match self {
            SyntaxProblem::ExpectExpression => "Expect expression.",
            SyntaxProblem::ExpectRightParen => "Expect ')' after expression.",
            SyntaxProblem::ExpectVariableName => "Expect variable name.",
            SyntaxProblem::ExpectSemicolonAfterValue => "Expect ';' after value.",
            SyntaxProblem::ExpectSemicolonAfterVariable => "Expect ';' after variable declaration.",
        }
    }
}

/// Precedence ranks: primary, unary, then the binary levels.
pub const PRIMARY: u8 = 0;
pub const UNARY: u8 = 1;
pub const FACTOR: u8 = 2;
pub const TERM: u8 = 3;
pub const COMPARISON: u8 = 4;
pub const EQUALITY: u8 = 5;

/// The operators of a binary precedence level.
pub open spec fn level_ops(level: int) -> Seq<TokenType> {
    if level == EQUALITY {
        seq![TokenType::BangEqual, TokenType::EqualEqual]
    } else if level == COMPARISON {
        seq![TokenType::Greater, TokenType::GreaterEqual, TokenType::Less, TokenType::LessEqual]
    } else if level == TERM {
        seq![TokenType::Minus, TokenType::Plus]
    } else {
        seq![TokenType::Slash, TokenType::Star]
    }
}

/// Whether a token sequence is one the parser can work on: it ends with the end of input.
pub open spec fn well_terminated(ts: Seq<Token>) -> bool {
    ts.len() >= 1 && ts.last().token_type == TokenType::Eof
}

/// Whether the token at `pos` is not the end of input and has kind `k`.
pub open spec fn checks(ts: Seq<Token>, pos: int, k: TokenType) -> bool {
    0 <= pos < ts.len() && ts[pos].token_type != TokenType::Eof && ts[pos].token_type == k
}

pub open spec fn checks_any(ts: Seq<Token>, pos: int, ks: Seq<TokenType>) -> bool {
    0 <= pos < ts.len() && ts[pos].token_type != TokenType::Eof && ks.contains(ts[pos].token_type)
}

pub open spec fn fail(pos: int, problem: SyntaxProblem) -> ParseError {
    ParseError { at: pos as usize, problem }
}

/// `primary → NUMBER | STRING | "true" | "false" | "nil" | IDENTIFIER | "(" expression ")"`
pub open spec fn parse_primary(ts: Seq<Token>, pos: int) -> Result<(Expression, int), ParseError>
    decreases ts.len() - pos, PRIMARY as int,
{
    if !(0 <= pos < ts.len()) {
        Err(fail(pos, SyntaxProblem::ExpectExpression))
    } else if checks_any(
        ts,
        pos,
        seq![TokenType::False, TokenType::True, TokenType::Nil, TokenType::String, TokenType::Number],
    ) {
        Ok((literal_of(ts[pos]), pos + 1))
    } else if checks(ts, pos, TokenType::LeftParen) {
        match parse_binary(ts, pos + 1, EQUALITY as int) {
            Ok((e, p)) => if checks(ts, p, TokenType::RightParen) {
                Ok((Expression::Grouping(GroupingExpression { expression: Box::new(e) }), p + 1))
            } else {
                Err(fail(p, SyntaxProblem::ExpectRightParen))
            },
            Err(x) => Err(x),
        }
    } else if checks(ts, pos, TokenType::Identifier) {
        Ok((Expression::Variable(VarExpression { name: ts[pos] }), pos + 1))
    } else {
        Err(fail(pos, SyntaxProblem::ExpectExpression))
    }
}

/// `unary → ("-" | "!") unary | primary`
pub open spec fn parse_unary(ts: Seq<Token>, pos: int) -> Result<(Expression, int), ParseError>
    decreases ts.len() - pos, UNARY as int,
{
    if !(0 <= pos < ts.len()) {
        Err(fail(pos, SyntaxProblem::ExpectExpression))
    } else if checks_any(ts, pos, seq![TokenType::Minus, TokenType::Bang]) {
        match parse_unary(ts, pos + 1) {
            Ok((r, p)) => Ok((Expression::Unary(UnaryExpression { operator: ts[pos], right: Box::new(r) }), p)),
            Err(x) => Err(x),
        }
    } else {
        parse_primary(ts, pos)
    }
}

/// A left-associative binary level: `operand ( op operand )*`, where the operand is the
/// next level up (unary for the factor level). Each parse moves forward and stays within
/// the tokens, so the guards on positions always hold; they bound the recursion.
pub open spec fn parse_binary(ts: Seq<Token>, pos: int, level: int) -> Result<(Expression, int), ParseError>
    decreases ts.len() - pos, level,
{
    if !(0 <= pos < ts.len()) || level < FACTOR || level > EQUALITY {
        Err(fail(pos, SyntaxProblem::ExpectExpression))
    } else {
        let first = if level == FACTOR {
            parse_unary(ts, pos)
        } else {
            parse_binary(ts, pos, level - 1)
        };
        match first {
            Ok((left, p)) => if pos < p < ts.len() {
                parse_rest(ts, p, level, left)
            } else {
                Ok((left, p))
            },
            Err(x) => Err(x),
        }
    }
}

/// The `( op operand )*` tail of a binary level, folded onto `left`.
pub open spec fn parse_rest(ts: Seq<Token>, pos: int, level: int, left: Expression) -> Result<
    (Expression, int),
    ParseError,
>
    decreases ts.len() - pos, level,
{
    if !(0 <= pos < ts.len()) || level < FACTOR || level > EQUALITY {
        Err(fail(pos, SyntaxProblem::ExpectExpression))
    } else if checks_any(ts, pos, level_ops(level)) {
        let operand = if level == FACTOR {
            parse_unary(ts, pos + 1)
        } else {
            parse_binary(ts, pos + 1, level - 1)
        };
        match operand {
            Ok((right, p)) => {
                let e = Expression::Binary(
                    BinaryExpression { left: Box::new(left), operator: ts[pos], right: Box::new(right) },
                );
                if pos < p < ts.len() {
                    parse_rest(ts, p, level, e)
                } else {
                    Ok((e, p))
                }
            },
            Err(x) => Err(x),
        }
    } else {
        Ok((left, pos))
    }
}

pub open spec fn parse_expression(ts: Seq<Token>, pos: int) -> Result<(Expression, int), ParseError> {
    parse_binary(ts, pos, EQUALITY as int)
}

/// `expression ";"` as a print statement (`print`) or an expression statement, or the error
/// where the semicolon was missing.
pub open spec fn ended_by_semicolon(
    ts: Seq<Token>,
    r: Result<(Expression, int), ParseError>,
    print: bool,
) -> Result<(Statement, int), ParseError> {
    match r {
        Ok((e, p)) => if checks(ts, p, TokenType::Semicolon) {
            Ok((if print { Statement::Print(e) } else { Statement::Expression(e) }, p + 1))
        } else {
            Err(fail(p, SyntaxProblem::ExpectSemicolonAfterValue))
        },
        Err(x) => Err(x),
    }
}

/// `statement → "print" expression ";" | expression ";"`
pub open spec fn parse_statement(ts: Seq<Token>, pos: int) -> Result<(Statement, int), ParseError> {
    if checks(ts, pos, TokenType::Print) {
        ended_by_semicolon(ts, parse_expression(ts, pos + 1), true)
    } else {
        ended_by_semicolon(ts, parse_expression(ts, pos), false)
    }
}

/// `IDENTIFIER ("=" expression)? ";"`, after the `var` keyword.
pub open spec fn parse_var(ts: Seq<Token>, pos: int) -> Result<(Statement, int), ParseError> {
    if !checks(ts, pos, TokenType::Identifier) {
        Err(fail(pos, SyntaxProblem::ExpectVariableName))
    } else {
        let init = if checks(ts, pos + 1, TokenType::Equal) {
            match parse_expression(ts, pos + 2) {
                Ok((e, p)) => Ok((Some(e), p)),
                Err(x) => Err(x),
            }
        } else {
            Ok((None, pos + 1))
        };
        match init {
            Ok((initializer, p)) => if checks(ts, p, TokenType::Semicolon) {
                Ok((Statement::VarDeclaration(VarDeclaration { name: ts[pos], initializer }), p + 1))
            } else {
                Err(fail(p, SyntaxProblem::ExpectSemicolonAfterVariable))
            },
            Err(x) => Err(x),
        }
    }
}

/// `declaration → "var" ... | statement`
pub open spec fn parse_declaration(ts: Seq<Token>, pos: int) -> Result<(Statement, int), ParseError> {
    if checks(ts, pos, TokenType::Var) {
        parse_var(ts, pos + 1)
    } else {
        parse_statement(ts, pos)
    }
}

pub open spec fn starts_statement(k: TokenType) -> bool {
    k == TokenType::Class || k == TokenType::Fun || k == TokenType::Var || k == TokenType::For
        || k == TokenType::If || k == TokenType::While || k == TokenType::Print || k == TokenType::Return
}

pub open spec fn at_end(ts: Seq<Token>, pos: int) -> bool {
    !(0 <= pos < ts.len()) || ts[pos].token_type == TokenType::Eof
}

/// Skips tokens until the one before was a semicolon, the next starts a statement,
/// or the input ends.
pub open spec fn skip_to_boundary(ts: Seq<Token>, pos: int) -> int
    decreases ts.len() - pos,
{
    if at_end(ts, pos) {
        pos
    } else if pos > 0 && ts[pos - 1].token_type == TokenType::Semicolon {
        pos
    } else if starts_statement(ts[pos].token_type) {
        pos
    } else {
        skip_to_boundary(ts, pos + 1)
    }
}

/// Where parsing resumes after an error at `pos`: one token on, then to a boundary.
pub open spec fn recover_from(ts: Seq<Token>, pos: int) -> int {
    skip_to_boundary(ts, if at_end(ts, pos) { pos } else { pos + 1 })
}

/// The statements of the program from `pos`, one slot per declaration, `None` for
/// each that failed.
pub open spec fn parse_program(ts: Seq<Token>, pos: int) -> Seq<Option<Statement>>
    decreases ts.len() - pos,
{
    if at_end(ts, pos) {
        Seq::empty()
    } else {
        match parse_declaration(ts, pos) {
            Ok((s, p)) => if pos < p < ts.len() {
                seq![Some(s)] + parse_program(ts, p)
            } else {
                seq![Some(s)]
            },
            Err(x) => {
                let q = recover_from(ts, x.at as int);
                if pos < q < ts.len() {
                    seq![None] + parse_program(ts, q)
                } else {
                    seq![None]
                }
            },
        }
    }
}

/// The syntax errors met while parsing the program from `pos`, in order.
pub open spec fn program_errors(ts: Seq<Token>, pos: int) -> Seq<ParseError>
    decreases ts.len() - pos,
{
    if at_end(ts, pos) {
        Seq::empty()
    } else {
        match parse_declaration(ts, pos) {
            Ok((s, p)) => if pos < p < ts.len() {
                program_errors(ts, p)
            } else {
                Seq::empty()
            },
            Err(x) => {
                let q = recover_from(ts, x.at as int);
                if pos < q < ts.len() {
                    seq![x] + program_errors(ts, q)
                } else {
                    seq![x]
                }
            },
        }
    }
}

/// Whether a parse result `r`, with the parser now at `cur`, is the grammar's result `s`:
/// on success the position is where `s` ends, on failure where the error is.
pub open spec fn agrees<T>(r: Result<T, ParseError>, cur: int, s: Result<(T, int), ParseError>) -> bool {
    match s {
        Ok((v, p)) => r == Ok::<T, ParseError>(v) && cur == p,
        Err(x) => r == Err::<T, ParseError>(x) && cur == x.at,
    }
}

/// The statement of each slot of a parse; meaningful where every slot is filled.
pub open spec fn filled(slots: Seq<Option<Statement>>) -> Seq<Statement> {
    slots.map_values(|o: Option<Statement>| o->Some_0)
}

/// A program parsed without syntax errors has a statement in every slot.
pub proof fn lemma_clean_parse_is_filled(ts: Seq<Token>, pos: int)
    requires
        program_errors(ts, pos).len() == 0,
    ensures
        forall|i: int| 0 <= i < parse_program(ts, pos).len() ==> (#[trigger] parse_program(ts, pos)[i]) is Some,
    decreases ts.len() - pos,
{
    if !at_end(ts, pos) {
        match parse_declaration(ts, pos) {
            Ok((s, p)) => {
                if pos < p < ts.len() {
                    lemma_clean_parse_is_filled(ts, p);
                    let rest = parse_program(ts, p);
                    assert(parse_program(ts, pos) == seq![Some(s)] + rest);
                    assert forall|i: int| 0 <= i < parse_program(ts, pos).len() implies (#[trigger] parse_program(
                        ts,
                        pos,
                    )[i]) is Some by {
                        if i > 0 {
                            assert(parse_program(ts, pos)[i] == rest[i - 1]);
                        }
                    }
                }
            },
            Err(_) => {},
        }
    }
}

/// A recursive-descent parser over a token sequence that ends with the end of input.
pub struct Parser {
    tokens: Vec<Token>,
    current: usize,
    had_error: bool,
    errors: Vec<ParseError>,
}

/// The diagnostic text of a syntax error found at `token`.
pub open spec fn syntax_diagnostic(token: Token, problem: SyntaxProblem) -> Seq<char> {
    crate::report::report_text(token.line as nat, crate::report::location_of(token), problem_text(problem))
}

impl Parser {
    /// The tokens being parsed.
    pub closed spec fn input(self) -> Seq<Token> {
        self.tokens@
    }

    /// The index of the next token.
    pub closed spec fn position(self) -> int {
        self.current as int
    }

    /// Whether any syntax error was met.
    pub closed spec fn failed(self) -> bool {
        self.had_error
    }

    /// The syntax errors met so far, in order.
    pub closed spec fn syntax_errors(self) -> Seq<ParseError> {
        self.errors@
    }

    /// The parser's state is consistent: the tokens end with the end of input, the position
    /// is within them, and so is every error.
    pub closed spec fn wf(self) -> bool {
        &&& well_terminated(self.tokens@)
        &&& self.current < self.tokens@.len()
        &&& forall|i: int| 0 <= i < self.errors@.len() ==> (#[trigger] self.errors@[i]).at < self.tokens@.len()
    }

    pub fn new(tokens: Vec<Token>) -> (r: Parser)
        requires
            well_terminated(tokens@),
        ensures
            r.wf(),
            r.input() == tokens@,
            r.position() == 0,
            !r.failed(),
            r.syntax_errors() == Seq::<ParseError>::empty(),
    {
        Parser { tokens, current: 0, had_error: false, errors: Vec::new() }
    }

    fn is_at_end(&self) -> (r: bool)
        requires
            self.wf(),
        ensures
            r == at_end(self.tokens@, self.current as int),
    {
        self.tokens[self.current].token_type == TokenType::Eof
    }

    fn check(&self, token_type: TokenType) -> (r: bool)
        requires
            self.wf(),
        ensures
            r == checks(self.tokens@, self.current as int, token_type),
    {
        if self.is_at_end() {
            return false;
        }
        self.tokens[self.current].token_type == token_type
    }

    /// Consumes the next token and returns it.
    fn advance(&mut self) -> (r: Token)
        requires
            old(self).wf(),
            !at_end(old(self).tokens@, old(self).current as int),
        ensures
            final(self).wf(),
            final(self).tokens == old(self).tokens,
            final(self).errors == old(self).errors,
            final(self).had_error == old(self).had_error,
            final(self).current == old(self).current + 1,
            r == old(self).tokens@[old(self).current as int],
    {
        let n: usize = self.tokens.len();
        assert(self.current < n - 1);
        self.current = self.current + 1;
        self.previous()
    }

    fn previous(&self) -> (r: Token)
        requires
            self.wf(),
            self.current >= 1,
        ensures
            r == self.tokens@[self.current - 1],
    {
        self.tokens[self.current - 1].cloned()
    }

    /// Consumes the next token when its kind is one of `types_`.
    fn match_(&mut self, types_: Vec<TokenType>) -> (r: bool)
        requires
            old(self).wf(),
        ensures
            final(self).wf(),
            final(self).tokens == old(self).tokens,
            final(self).errors == old(self).errors,
            final(self).had_error == old(self).had_error,
            r == checks_any(old(self).tokens@, old(self).current as int, types_@),
            final(self).current == old(self).current + if r { 1int } else { 0int },
    {
        let mut i: usize = 0;
        while i < types_.len()
            invariant
                self.wf(),
                *self == *old(self),
                0 <= i <= types_@.len(),
                forall|j: int| 0 <= j < i ==> !checks(self.tokens@, self.current as int, #[trigger] types_@[j]),
            decreases types_@.len() - i,
        {
            if self.check(types_[i]) {
                assert(types_@.contains(types_@[i as int]));
                self.advance();
                return true;
            }
            i = i + 1;
        }
        assert(!types_@.contains(self.tokens@[self.current as int].token_type) || at_end(
            self.tokens@,
            self.current as int,
        ));
        false
    }

    fn operators(level: u8) -> (r: Vec<TokenType>)
        ensures
            r@ == level_ops(level as int),
    {
        let r = if level == EQUALITY {
            vec![TokenType::BangEqual, TokenType::EqualEqual]
        } else if level == COMPARISON {
            vec![TokenType::Greater, TokenType::GreaterEqual, TokenType::Less, TokenType::LessEqual]
        } else if level == TERM {
            vec![TokenType::Minus, TokenType::Plus]
        } else {
            vec![TokenType::Slash, TokenType::Star]
        };
        assert(r@ =~= level_ops(level as int));
        r
    }

    fn error_here(&self, problem: SyntaxProblem) -> (r: ParseError)
        ensures
            r == fail(self.current as int, problem),
    {
        ParseError { at: self.current, problem }
    }

    fn primary(&mut self) -> (r: Result<Expression, ParseError>)
        requires
            old(self).wf(),
        ensures
            final(self).wf(),
            final(self).tokens == old(self).tokens,
            final(self).errors == old(self).errors,
            final(self).had_error == old(self).had_error,
            agrees(r, final(self).current as int, parse_primary(old(self).tokens@, old(self).current as int)),
            old(self).current <= final(self).current,
            r is Ok ==> old(self).current < final(self).current,
        decreases old(self).tokens@.len() - old(self).current, PRIMARY as int,
    {
        if self.match_(
            vec![TokenType::False, TokenType::True, TokenType::Nil, TokenType::String, TokenType::Number],
        ) {
            return Ok(Expression::literal(self.previous()));
        }
        if self.check(TokenType::LeftParen) {
            self.advance();
            let expression = match self.binary(EQUALITY) {
                Ok(e) => e,
                Err(x) => return Err(x),
            };
            if !self.check(TokenType::RightParen) {
                return Err(self.error_here(SyntaxProblem::ExpectRightParen));
            }
            self.advance();
            return Ok(Expression::grouping(expression));
        }
        if self.check(TokenType::Identifier) {
            let name = self.advance();
            return Ok(Expression::variable(name));
        }
        Err(self.error_here(SyntaxProblem::ExpectExpression))
    }

    fn unary(&mut self) -> (r: Result<Expression, ParseError>)
        requires
            old(self).wf(),
        ensures
            final(self).wf(),
            final(self).tokens == old(self).tokens,
            final(self).errors == old(self).errors,
            final(self).had_error == old(self).had_error,
            agrees(r, final(self).current as int, parse_unary(old(self).tokens@, old(self).current as int)),
            old(self).current <= final(self).current,
            r is Ok ==> old(self).current < final(self).current,
        decreases old(self).tokens@.len() - old(self).current, UNARY as int,
    {
        if self.match_(vec![TokenType::Minus, TokenType::Bang]) {
            let operator = self.previous();
            return match self.unary() {
                Ok(right) => Ok(Expression::unary(operator, right)),
                Err(x) => Err(x),
            };
        }
        self.primary()
    }

    /// One binary precedence level, left-associative.
    fn binary(&mut self, level: u8) -> (r: Result<Expression, ParseError>)
        requires
            old(self).wf(),
            FACTOR <= level <= EQUALITY,
        ensures
            final(self).wf(),
            final(self).tokens == old(self).tokens,
            final(self).errors == old(self).errors,
            final(self).had_error == old(self).had_error,
            agrees(
                r,
                final(self).current as int,
                parse_binary(old(self).tokens@, old(self).current as int, level as int),
            ),
            old(self).current <= final(self).current,
            r is Ok ==> old(self).current < final(self).current,
        decreases old(self).tokens@.len() - old(self).current, level,
    {
        let ghost ts = self.tokens@;
        let ghost start = self.current as int;
        let first = if level == FACTOR {
            self.unary()
        } else {
            self.binary(level - 1)
        };
        let mut expression = match first {
            Ok(e) => e,
            Err(x) => return Err(x),
        };
        assert(parse_binary(ts, start, level as int) == parse_rest(ts, self.current as int, level as int, expression));
        loop
            invariant
                self.wf(),
                self.tokens == old(self).tokens,
                self.errors == old(self).errors,
                self.had_error == old(self).had_error,
                FACTOR <= level <= EQUALITY,
                start < self.current,
                start == old(self).current,
                ts == old(self).tokens@,
                parse_binary(ts, start, level as int) == parse_rest(ts, self.current as int, level as int, expression),
            decreases self.tokens@.len() - self.current,
        {
            let ghost pos = self.current as int;
            let ghost left = expression;
            if !self.match_(Parser::operators(level)) {
                return Ok(expression);
            }
            let operator = self.previous();
            let next = if level == FACTOR {
                self.unary()
            } else {
                self.binary(level - 1)
            };
            let right = match next {
                Ok(e) => e,
                Err(x) => return Err(x),
            };
            expression = Expression::binary(expression, operator, right);
            assert(parse_rest(ts, pos, level as int, left) == parse_rest(ts, self.current as int, level as int, expression));
        }
    }

    fn expression(&mut self) -> (r: Result<Expression, ParseError>)
        requires
            old(self).wf(),
        ensures
            final(self).wf(),
            final(self).tokens == old(self).tokens,
            final(self).errors == old(self).errors,
            final(self).had_error == old(self).had_error,
            agrees(r, final(self).current as int, parse_expression(old(self).tokens@, old(self).current as int)),
            old(self).current <= final(self).current,
            r is Ok ==> old(self).current < final(self).current,
    {
        self.binary(EQUALITY)
    }

    fn consume(&mut self, token_type: TokenType, problem: SyntaxProblem) -> (r: Result<Token, ParseError>)
        requires
            old(self).wf(),
        ensures
            final(self).wf(),
            final(self).tokens == old(self).tokens,
            final(self).errors == old(self).errors,
            final(self).had_error == old(self).had_error,
            r == (if checks(old(self).tokens@, old(self).current as int, token_type) {
                Ok::<Token, ParseError>(old(self).tokens@[old(self).current as int])
            } else {
                Err::<Token, ParseError>(fail(old(self).current as int, problem))
            }),
            final(self).current == old(self).current + if r is Ok { 1int } else { 0int },
    {
        if self.check(token_type) {
            Ok(self.advance())
        } else {
            Err(self.error_here(problem))
        }
    }

    /// After an error: skips to a plausible statement boundary.
    fn synchronize(&mut self)
        requires
            old(self).wf(),
        ensures
            final(self).wf(),
            final(self).tokens == old(self).tokens,
            final(self).errors == old(self).errors,
            final(self).had_error == old(self).had_error,
            final(self).current == recover_from(old(self).tokens@, old(self).current as int),
            at_end(old(self).tokens@, old(self).current as int) || final(self).current > old(self).current,
    {
        if !self.is_at_end() {
            self.advance();
        }
        let ghost from = self.current as int;
        while !self.is_at_end()
            invariant
                self.wf(),
                self.tokens == old(self).tokens,
                self.errors == old(self).errors,
                self.had_error == old(self).had_error,
                self.current >= from,
                at_end(old(self).tokens@, old(self).current as int) || from == old(self).current + 1,
                recover_from(old(self).tokens@, old(self).current as int) == skip_to_boundary(
                    self.tokens@,
                    self.current as int,
                ),
            decreases self.tokens@.len() - self.current,
        {
            if self.current > 0 && self.previous().token_type == TokenType::Semicolon {
                return;
            }
            match self.tokens[self.current].token_type {
                TokenType::Class | TokenType::Fun | TokenType::Var | TokenType::For | TokenType::If
                | TokenType::While | TokenType::Print | TokenType::Return => {
                    return;
                },
                _ => {},
            }
            self.advance();
        }
    }

    fn print_statement(&mut self) -> (r: Result<Statement, ParseError>)
        requires
            old(self).wf(),
        ensures
            final(self).wf(),
            final(self).tokens == old(self).tokens,
            final(self).errors == old(self).errors,
            final(self).had_error == old(self).had_error,
            agrees(
                r,
                final(self).current as int,
                ended_by_semicolon(
                    old(self).tokens@,
                    parse_expression(old(self).tokens@, old(self).current as int),
                    true,
                ),
            ),
            old(self).current <= final(self).current,
            r is Ok ==> old(self).current < final(self).current,
    {
        let value = match self.expression() {
            Ok(e) => e,
            Err(x) => return Err(x),
        };
        match self.consume(TokenType::Semicolon, SyntaxProblem::ExpectSemicolonAfterValue) {
            Ok(_) => Ok(Statement::Print(value)),
            Err(x) => Err(x),
        }
    }

    fn expression_statement(&mut self) -> (r: Result<Statement, ParseError>)
        requires
            old(self).wf(),
        ensures
            final(self).wf(),
            final(self).tokens == old(self).tokens,
            final(self).errors == old(self).errors,
            final(self).had_error == old(self).had_error,
            agrees(
                r,
                final(self).current as int,
                ended_by_semicolon(
                    old(self).tokens@,
                    parse_expression(old(self).tokens@, old(self).current as int),
                    false,
                ),
            ),
            old(self).current <= final(self).current,
            r is Ok ==> old(self).current < final(self).current,
    {
        let value = match self.expression() {
            Ok(e) => e,
            Err(x) => return Err(x),
        };
        match self.consume(TokenType::Semicolon, SyntaxProblem::ExpectSemicolonAfterValue) {
            Ok(_) => Ok(Statement::Expression(value)),
            Err(x) => Err(x),
        }
    }

    fn statement(&mut self) -> (r: Result<Statement, ParseError>)
        requires
            old(self).wf(),
        ensures
            final(self).wf(),
            final(self).tokens == old(self).tokens,
            final(self).errors == old(self).errors,
            final(self).had_error == old(self).had_error,
            agrees(r, final(self).current as int, parse_statement(old(self).tokens@, old(self).current as int)),
            old(self).current <= final(self).current,
            r is Ok ==> old(self).current < final(self).current,
    {
        if self.check(TokenType::Print) {
            self.advance();
            return self.print_statement();
        }
        self.expression_statement()
    }

    fn var_declaration(&mut self) -> (r: Result<Statement, ParseError>)
        requires
            old(self).wf(),
        ensures
            final(self).wf(),
            final(self).tokens == old(self).tokens,
            final(self).errors == old(self).errors,
            final(self).had_error == old(self).had_error,
            agrees(r, final(self).current as int, parse_var(old(self).tokens@, old(self).current as int)),
            old(self).current <= final(self).current,
            r is Ok ==> old(self).current < final(self).current,
    {
        let name = match self.consume(TokenType::Identifier, SyntaxProblem::ExpectVariableName) {
            Ok(t) => t,
            Err(x) => return Err(x),
        };
        let mut initializer: Option<Expression> = None;
        if self.check(TokenType::Equal) {
            self.advance();
            match self.expression() {
                Ok(e) => {
                    initializer = Some(e);
                },
                Err(x) => return Err(x),
            }
        }
        match self.consume(TokenType::Semicolon, SyntaxProblem::ExpectSemicolonAfterVariable) {
            Ok(_) => Ok(Statement::VarDeclaration(VarDeclaration { name, initializer })),
            Err(x) => Err(x),
        }
    }

    fn declaration(&mut self) -> (r: Result<Statement, ParseError>)
        requires
            old(self).wf(),
        ensures
            final(self).wf(),
            final(self).tokens == old(self).tokens,
            final(self).errors == old(self).errors,
            final(self).had_error == old(self).had_error,
            agrees(r, final(self).current as int, parse_declaration(old(self).tokens@, old(self).current as int)),
            old(self).current <= final(self).current,
            r is Ok ==> old(self).current < final(self).current,
    {
        if self.check(TokenType::Var) {
            self.advance();
            return self.var_declaration();
        }
        self.statement()
    }

    /// Parses declarations up to the end of input: one slot per declaration, `None` where
    /// it failed; each failure is recorded and parsing resumes at the next boundary.
    pub fn parse(&mut self) -> (r: Vec<Option<Statement>>)
        requires
            old(self).wf(),
        ensures
            final(self).wf(),
            final(self).input() == old(self).input(),
            r@ == parse_program(old(self).input(), old(self).position()),
            final(self).syntax_errors() == old(self).syntax_errors() + program_errors(
                old(self).input(),
                old(self).position(),
            ),
            final(self).failed() == (old(self).failed() || program_errors(
                old(self).input(),
                old(self).position(),
            ).len() > 0),
    {
        let ghost ts = self.tokens@;
        let ghost start = self.current as int;
        let ghost found: Seq<ParseError> = Seq::empty();
        let mut statements: Vec<Option<Statement>> = Vec::new();
        while !self.is_at_end()
            invariant
                self.wf(),
                self.tokens@ == ts,
                ts == old(self).tokens@,
                start == old(self).current,
                statements@ + parse_program(ts, self.current as int) == parse_program(ts, start),
                self.errors@ == old(self).errors@ + found,
                found + program_errors(ts, self.current as int) == program_errors(ts, start),
                self.had_error == (old(self).had_error || found.len() > 0),
            decreases self.tokens@.len() - self.current,
        {
            let ghost pos = self.current as int;
            match self.declaration() {
                Ok(s) => {
                    assert(parse_program(ts, pos) == seq![Some(s)] + parse_program(ts, self.current as int));
                    assert(program_errors(ts, pos) == program_errors(ts, self.current as int));
                    let ghost before = statements@;
                    statements.push(Some(s));
                    assert(statements@ + parse_program(ts, self.current as int) =~= before + parse_program(ts, pos));
                },
                Err(x) => {
                    let ghost before = statements@;
                    statements.push(None);
                    self.had_error = true;
                    self.errors.push(x);
                    self.synchronize();
                    assert(parse_program(ts, pos) == seq![None] + parse_program(ts, self.current as int));
                    assert(program_errors(ts, pos) == seq![x] + program_errors(ts, self.current as int));
                    assert(statements@ + parse_program(ts, self.current as int) =~= before + parse_program(ts, pos));
                    proof {
                        found = found + seq![x];
                    }
                    assert(found + program_errors(ts, self.current as int) =~= program_errors(ts, start));
                },
            }
        }
        assert(statements@ =~= statements@ + parse_program(ts, self.current as int));
        assert(found =~= found + program_errors(ts, self.current as int));
        statements
    }

    /// The diagnostic of each syntax error met so far, in order.
    pub fn diagnostics(&self) -> (r: Vec<String>)
        requires
            self.wf(),
        ensures
            r@.len() == self.syntax_errors().len(),
            forall|i: int|
                0 <= i < r@.len() ==> (#[trigger] r@[i])@ == syntax_diagnostic(
                    self.input()[self.syntax_errors()[i].at as int],
                    self.syntax_errors()[i].problem,
                ),
    {
        let mut out: Vec<String> = Vec::new();
        let mut i: usize = 0;
        while i < self.errors.len()
            invariant
                self.wf(),
                0 <= i <= self.errors@.len(),
                out@.len() == i,
                forall|k: int|
                    0 <= k < i ==> (#[trigger] out@[k])@ == syntax_diagnostic(
                        self.tokens@[self.errors@[k].at as int],
                        self.errors@[k].problem,
                    ),
            decreases self.errors@.len() - i,
        {
            let e = self.errors[i];
            assert(e.at < self.tokens@.len());
            let token = self.tokens[e.at].cloned();
            let text = token_error(token, e.problem.message());
            out.push(text);
            i = i + 1;
        }
        out
    }

    /// Whether any syntax error was met.
    pub fn has_errors(&self) -> (r: bool)
        ensures
            r == self.failed(),
    {
        self.had_error
    }

    /// Gives back the tokens.
    pub fn into_tokens(self) -> (r: Vec<Token>)
        ensures
            r@ == self.input(),
    {
        self.tokens
    }
}

} // verus!
