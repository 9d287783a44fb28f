use vstd::prelude::*;
use crate::number::{decimal_number, is_digit_char, pow10, Number};
use crate::report::{error, report_text};
use crate::text::{chars_of, text_of};
use crate::token::{keyword, keyword_kind, Literal, Token, TokenType};

verus! {

pub open spec fn is_alpha_char(c: char) -> bool {
    ('a' <= c && c <= 'z') || ('A' <= c && c <= 'Z') || c == '_'
}

pub open spec fn is_alphanumeric_char(c: char) -> bool {
    is_alpha_char(c) || is_digit_char(c)
}

/// The fixed text of a punctuation kind; `None` for the other kinds.
pub open spec fn punctuation_text(k: TokenType) -> Option<Seq<char>> {
    match k {
        TokenType::LeftParen => Some(seq!['(']),
        TokenType::RightParen => Some(seq![')']),
        TokenType::LeftBrace => Some(seq!['{']),
        TokenType::RightBrace => Some(seq!['}']),
        TokenType::Comma => Some(seq![',']),
        TokenType::Dot => Some(seq!['.']),
        TokenType::Minus => Some(seq!['-']),
        TokenType::Plus => Some(seq!['+']),
        TokenType::Semicolon => Some(seq![';']),
        TokenType::Slash => Some(seq!['/']),
        TokenType::Star => Some(seq!['*']),
        TokenType::Bang => Some(seq!['!']),
        TokenType::BangEqual => Some(seq!['!', '=']),
        TokenType::Equal => Some(seq!['=']),
        TokenType::EqualEqual => Some(seq!['=', '=']),
        TokenType::Greater => Some(seq!['>']),
        TokenType::GreaterEqual => Some(seq!['>', '=']),
        TokenType::Less => Some(seq!['<']),
        TokenType::LessEqual => Some(seq!['<', '=']),
        _ => None,
    }
}

pub open spec fn all_digits(s: Seq<char>) -> bool {
    forall|i: int| 0 <= i < s.len() ==> is_digit_char(#[trigger] s[i])
}

/// A letter or underscore, then letters, digits and underscores.
pub open spec fn is_word(s: Seq<char>) -> bool {
    &&& s.len() >= 1
    &&& is_alpha_char(s[0])
    &&& forall|i: int| 0 <= i < s.len() ==> is_alphanumeric_char(#[trigger] s[i])
}

/// A number lexeme whose whole part ends at `k`: digits, then either nothing or a point and
/// more digits; its literal is the exact value those digits denote.
pub open spec fn number_split(lex: Seq<char>, literal: Option<Literal>, k: int) -> bool {
    &&& 1 <= k <= lex.len()
    &&& all_digits(lex.subrange(0, k))
    &&& if k == lex.len() {
        decimal_number(lex, 0) matches Some(x) && literal == Some(Literal::Number(x))
    } else {
        &&& lex[k] == '.'
        &&& k + 1 < lex.len()
        &&& all_digits(lex.subrange(k + 1, lex.len() as int))
        &&& decimal_number(
            lex.subrange(0, k) + lex.subrange(k + 1, lex.len() as int),
            (lex.len() - k - 1) as nat,
        ) matches Some(x) && literal == Some(Literal::Number(x))
    }
}

/// How the kind of a scanned token fits its lexeme and literal: punctuation has its fixed
/// text, words are keywords exactly when the keyword table says so, a string token is its
/// text in quotes with that text as literal, a number token carries the value of its digits.
pub open spec fn shaped(k: TokenType, lex: Seq<char>, literal: Option<Literal>) -> bool {
    if k == TokenType::Eof {
        false
    } else if k == TokenType::String {
        &&& lex.len() >= 2
        &&& lex[0] == '"'
        &&& lex.last() == '"'
        &&& literal matches Some(Literal::String(s)) && s@ == lex.subrange(1, lex.len() - 1)
    } else if k == TokenType::Number {
        exists|j: int| number_split(lex, literal, j)
    } else if punctuation_text(k) is Some {
        lex == punctuation_text(k)->Some_0 && literal is None
    } else {
        &&& literal is None
        &&& is_word(lex)
        &&& keyword_kind(lex) == if k == TokenType::Identifier {
            None
        } else {
            Some(k)
        }
    }
}

/// The number of line breaks in `s`.
pub open spec fn newlines(s: Seq<char>) -> nat
    decreases s.len(),
{
    if s.len() == 0 {
        0
    } else {
        newlines(s.drop_last()) + if s.last() == '\n' {
            1nat
        } else {
            0nat
        }
    }
}

/// The first index from `i` on that holds no digit (or the end).
pub open spec fn digits_end(src: Seq<char>, i: int) -> int
    decreases src.len() - i,
{
    if 0 <= i < src.len() && is_digit_char(src[i]) {
        digits_end(src, i + 1)
    } else {
        i
    }
}

/// The first index from `i` on that holds no letter, digit or underscore (or the end).
pub open spec fn word_end(src: Seq<char>, i: int) -> int
    decreases src.len() - i,
{
    if 0 <= i < src.len() && is_alphanumeric_char(src[i]) {
        word_end(src, i + 1)
    } else {
        i
    }
}

/// The first index from `i` on that holds a line break (or the end).
pub open spec fn line_end(src: Seq<char>, i: int) -> int
    decreases src.len() - i,
{
    if 0 <= i < src.len() && src[i] != '\n' {
        line_end(src, i + 1)
    } else {
        i
    }
}

/// The first index from `i` on that holds a double quote (or the end).
pub open spec fn quote_at(src: Seq<char>, i: int) -> int
    decreases src.len() - i,
{
    if 0 <= i < src.len() && src[i] != '"' {
        quote_at(src, i + 1)
    } else {
        i
    }
}

pub open spec fn followed_by_equal(src: Seq<char>, p: int) -> bool {
    p + 1 < src.len() && src[p + 1] == '='
}

pub open spec fn starts_comment(src: Seq<char>, p: int) -> bool {
    src[p] == '/' && p + 1 < src.len() && src[p + 1] == '/'
}

/// Where a number starting at `p` ends: digits, then a point only when a digit follows it.
pub open spec fn number_end(src: Seq<char>, p: int) -> int {
    let a = digits_end(src, p + 1);
    if a + 1 < src.len() && src[a] == '.' && is_digit_char(src[a + 1]) {
        digits_end(src, a + 2)
    } else {
        a
    }
}

/// The value of the number starting at `p`, if it fits the representation.
pub open spec fn number_value(src: Seq<char>, p: int) -> Option<Number> {
    let a = digits_end(src, p + 1);
    let e = number_end(src, p);
    if e == a {
        decimal_number(src.subrange(p, e), 0)
    } else {
        decimal_number(src.subrange(p, a) + src.subrange(a + 1, e), (e - a - 1) as nat)
    }
}

/// Where the piece of source text that starts at `p` ends: the longest match of the
/// token, comment or string that starts there, or the one character.
pub open spec fn token_end(src: Seq<char>, p: int) -> int {
    let c = src[p];
    if (c == '!' || c == '=' || c == '<' || c == '>') && followed_by_equal(src, p) {
        p + 2
    } else if starts_comment(src, p) {
        line_end(src, p + 2)
    } else if c == '"' {
        let q = quote_at(src, p + 1);
        if q < src.len() {
            q + 1
        } else {
            q
        }
    } else if is_digit_char(c) {
        number_end(src, p)
    } else if is_alpha_char(c) {
        word_end(src, p + 1)
    } else {
        p + 1
    }
}

/// The kind of token that the piece starting at `p` gives; `None` for white space, a
/// comment, an unterminated string, a number too large, or an unexpected character.
pub open spec fn token_kind(src: Seq<char>, p: int) -> Option<TokenType> {
    let c = src[p];
    if c == '(' {
        Some(TokenType::LeftParen)
    } else if c == ')' {
        Some(TokenType::RightParen)
    } else if c == '{' {
        Some(TokenType::LeftBrace)
    } else if c == '}' {
        Some(TokenType::RightBrace)
    } else if c == ',' {
        Some(TokenType::Comma)
    } else if c == '.' {
        Some(TokenType::Dot)
    } else if c == '-' {
        Some(TokenType::Minus)
    } else if c == '+' {
        Some(TokenType::Plus)
    } else if c == ';' {
        Some(TokenType::Semicolon)
    } else if c == '*' {
        Some(TokenType::Star)
    } else if c == '!' {
        Some(if followed_by_equal(src, p) { TokenType::BangEqual } else { TokenType::Bang })
    } else if c == '=' {
        Some(if followed_by_equal(src, p) { TokenType::EqualEqual } else { TokenType::Equal })
    } else if c == '>' {
        Some(if followed_by_equal(src, p) { TokenType::GreaterEqual } else { TokenType::Greater })
    } else if c == '<' {
        Some(if followed_by_equal(src, p) { TokenType::LessEqual } else { TokenType::Less })
    } else if c == '/' {
        if starts_comment(src, p) {
            None
        } else {
            Some(TokenType::Slash)
        }
    } else if c == '"' {
        if quote_at(src, p + 1) < src.len() {
            Some(TokenType::String)
        } else {
            None
        }
    } else if is_digit_char(c) {
        if number_value(src, p) is Some {
            Some(TokenType::Number)
        } else {
            None
        }
    } else if is_alpha_char(c) {
        match keyword_kind(src.subrange(p, word_end(src, p + 1))) {
            Some(k) => Some(k),
            None => Some(TokenType::Identifier),
        }
    } else {
        None
    }
}

/// The tokens of `src` from `p` on, as kind, start and end; each piece is scanned from
/// where the one before ended. Every piece moves forward and stays within the text, so the
/// guard on `e` always holds; it bounds the recursion.
pub open spec fn spans(src: Seq<char>, p: int) -> Seq<(TokenType, int, int)>
    decreases src.len() - p,
{
    if !(0 <= p < src.len()) {
        Seq::empty()
    } else {
        let e = token_end(src, p);
        let rest = if p < e <= src.len() {
            spans(src, e)
        } else {
            Seq::empty()
        };
        match token_kind(src, p) {
            Some(k) => seq![(k, p, e)] + rest,
            None => rest,
        }
    }
}

/// The message of the scanning error that the piece starting at `p` gives, if any.
pub open spec fn piece_problem(src: Seq<char>, p: int) -> Option<Seq<char>> {
    let c = src[p];
    if c == '"' {
        if quote_at(src, p + 1) < src.len() {
            None
        } else {
            Some("Unterminated string."@)
        }
    } else if is_digit_char(c) {
        if number_value(src, p) is Some {
            None
        } else {
            Some("Number literal out of range."@)
        }
    } else if token_kind(src, p) is None && !(c == ' ' || c == '\r' || c == '\t' || c == '\n'
        || starts_comment(src, p)) {
        Some("Unexpected character."@)
    } else {
        None
    }
}

/// The scanning diagnostics of `src` from `p` on, in order; each gives the line on which
/// its piece ends.
pub open spec fn scan_problems(src: Seq<char>, p: int) -> Seq<Seq<char>>
    decreases src.len() - p,
{
    if !(0 <= p < src.len()) {
        Seq::empty()
    } else {
        let e = token_end(src, p);
        let rest = if p < e <= src.len() {
            scan_problems(src, e)
        } else {
            Seq::empty()
        };
        match piece_problem(src, p) {
            Some(m) => seq![report_text((1 + newlines(src.subrange(0, e))) as nat, Seq::empty(), m)] + rest,
            None => rest,
        }
    }
}

/// Whether `t` is the token of span `s`: its kind, its text, and the line on which it ends.
pub open spec fn token_of_span(t: Token, s: (TokenType, int, int), src: Seq<char>) -> bool {
    &&& t.token_type == s.0
    &&& t.lexeme@ == src.subrange(s.1, s.2)
    &&& t.line == 1 + newlines(src.subrange(0, s.2))
    &&& shaped(t.token_type, t.lexeme@, t.literal)
}

/// Whether `t` is a non-empty run of consecutive characters of `src`.
pub open spec fn occurs_in(t: Seq<char>, src: Seq<char>) -> bool {
    exists|a: int, b: int| 0 <= a < b <= src.len() && #[trigger] src.subrange(a, b) == t
}

/// Whether the lines of `tokens` are all positive and never decrease.
pub open spec fn lines_ordered(tokens: Seq<Token>) -> bool {
    forall|i: int, j: int| 0 <= i <= j < tokens.len() ==> 1 <= #[trigger] tokens[i].line <= #[trigger] tokens[j].line
}

/// The tokens scanned from `src`: one for each span of `src`, then one end-of-input token,
/// with an empty lexeme, on the last line.
pub open spec fn scanned_from(tokens: Seq<Token>, src: Seq<char>) -> bool {
    &&& tokens.len() == spans(src, 0).len() + 1
    &&& forall|i: int| 0 <= i < tokens.len() - 1 ==> token_of_span(#[trigger] tokens[i], spans(src, 0)[i], src)
    &&& tokens.last().token_type == TokenType::Eof
    &&& tokens.last().lexeme@.len() == 0
    &&& tokens.last().literal is None
    &&& tokens.last().line == 1 + newlines(src)
    &&& lines_ordered(tokens)
}

/// Turns source text into tokens, one left-to-right pass.
pub struct Scanner {
    source: Vec<char>,
    tokens: Vec<Token>,
    errors: Vec<String>,
    start: usize,
    current: usize,
    line: usize,
}

/// Scans `source` whole.
pub fn scan(source: String) -> (r: Vec<Token>)
    requires
        source@.len() < usize::MAX,
    ensures
        scanned_from(r@, source@),
{
    let mut scanner = Scanner::new(source);
    scanner.scan_tokens()
}

impl Scanner {
    /// The text being scanned.
    pub closed spec fn text(self) -> Seq<char> {
        self.source@
    }

    /// The text of each diagnostic reported so far.
    pub closed spec fn reported(self) -> Seq<Seq<char>> {
        self.errors@.map_values(|e: String| e@)
    }

    spec fn inv(self) -> bool {
        &&& self.start <= self.current <= self.source@.len() < usize::MAX
        &&& self.line == 1 + newlines(self.source@.subrange(0, self.current as int))
        &&& self.line <= self.current + 1
        &&& forall|i: int| 0 <= i < self.tokens@.len() ==> (#[trigger] self.tokens@[i]).line <= self.line
        &&& lines_ordered(self.tokens@)
    }

    /// `after` is `before` with the piece of text from `before.start` scanned: the position
    /// is at the end of the piece, and its token, if it gives one, was added.
    spec fn piece_done(before: Scanner, after: Scanner) -> bool {
        let src = before.source@;
        let p = before.start as int;
        &&& after.inv()
        &&& after.source@ == src
        &&& after.start == before.start
        &&& after.current == token_end(src, p)
        &&& match token_kind(src, p) {
            Some(k) => {
                &&& after.tokens@.len() == before.tokens@.len() + 1
                &&& after.tokens@.drop_last() == before.tokens@
                &&& token_of_span(after.tokens@.last(), (k, p, after.current as int), src)
            },
            None => after.tokens@ == before.tokens@,
        }
        &&& match piece_problem(src, p) {
            Some(m) => after.reported() == before.reported().push(
                report_text((1 + newlines(src.subrange(0, after.current as int))) as nat, Seq::empty(), m),
            ),
            None => after.reported() == before.reported(),
        }
    }

    pub fn new(source: String) -> (r: Scanner)
        ensures
            r.text() == source@,
            r.reported() == Seq::<Seq<char>>::empty(),
    {
        let chars = chars_of(source.as_str());
        let errors: Vec<String> = Vec::new();
        assert(errors@.map_values(|e: String| e@) =~= Seq::<Seq<char>>::empty());
        Scanner { source: chars, tokens: Vec::new(), errors, start: 0, current: 0, line: 1 }
    }

    /// The diagnostics of the last scan, in the order they were found.
    pub fn errors(&self) -> (r: &Vec<String>)
        ensures
            r@.map_values(|e: String| e@) == self.reported(),
    {
        &self.errors
    }

    /// Scans the whole text from its start and returns its tokens.
    pub fn scan_tokens(&mut self) -> (r: Vec<Token>)
        requires
            old(self).text().len() < usize::MAX,
        ensures
            final(self).text() == old(self).text(),
            scanned_from(r@, old(self).text()),
            final(self).reported() == scan_problems(old(self).text(), 0),
    {
        self.tokens = Vec::new();
        self.errors = Vec::new();
        self.start = 0;
        self.current = 0;
        self.line = 1;
        let ghost src = self.source@;
        assert(src.subrange(0, 0) =~= Seq::<char>::empty());
        assert(spans(src, 0) =~= spans(src, 0).subrange(0, 0) + spans(src, 0));
        assert(self.reported() =~= Seq::<Seq<char>>::empty());
        assert(self.reported() + scan_problems(src, 0) =~= scan_problems(src, 0));
        while !self.is_at_end()
            invariant
                self.inv(),
                self.source@ == src,
                src == old(self).source@,
                self.tokens@.len() <= spans(src, 0).len(),
                spans(src, 0) == spans(src, 0).subrange(0, self.tokens@.len() as int) + spans(
                    src,
                    self.current as int,
                ),
                forall|i: int|
                    0 <= i < self.tokens@.len() ==> token_of_span(#[trigger] self.tokens@[i], spans(src, 0)[i], src),
                self.reported() + scan_problems(src, self.current as int) == scan_problems(src, 0),
            decreases self.source@.len() - self.current,
        {
            self.start = self.current;
            let ghost before = *self;
            let ghost done = spans(src, 0).subrange(0, self.tokens@.len() as int);
            proof {
                lemma_token_end_moves(src, self.start as int);
            }
            self.scan_token();
            proof {
                let p = before.current as int;
                let e = self.current as int;
                let rest = spans(src, e);
                assert(spans(src, p) == match token_kind(src, p) {
                    Some(k) => seq![(k, p, e)] + rest,
                    None => rest,
                });
                match token_kind(src, p) {
                    Some(k) => {
                        assert(spans(src, 0) =~= (done + seq![(k, p, e)]) + rest);
                        assert(spans(src, 0).subrange(0, self.tokens@.len() as int) =~= done + seq![(k, p, e)]);
                        assert forall|i: int| 0 <= i < self.tokens@.len() implies token_of_span(
                            #[trigger] self.tokens@[i],
                            spans(src, 0)[i],
                            src,
                        ) by {
                            if i < before.tokens@.len() {
                                assert(self.tokens@[i] == before.tokens@[i]);
                            }
                        }
                    },
                    None => {},
                }
                let probs = scan_problems(src, e);
                assert(scan_problems(src, p) == match piece_problem(src, p) {
                    Some(m) => seq![report_text((1 + newlines(src.subrange(0, e))) as nat, Seq::empty(), m)] + probs,
                    None => probs,
                });
                match piece_problem(src, p) {
                    Some(m) => {
                        assert(self.reported() + probs =~= before.reported() + scan_problems(src, p));
                    },
                    None => {},
                }
            }
        }
        assert(src.subrange(0, self.current as int) =~= src);
        assert(self.reported() + scan_problems(src, self.current as int) =~= self.reported());
        assert(spans(src, self.current as int) =~= Seq::<(TokenType, int, int)>::empty());
        assert(spans(src, 0).subrange(0, self.tokens@.len() as int) =~= spans(src, 0));
        let end = Token::new(TokenType::Eof, String::new(), None, self.line);
        let mut tokens: Vec<Token> = Vec::new();
        std::mem::swap(&mut tokens, &mut self.tokens);
        let ghost before = tokens@;
        tokens.push(end);
        assert(forall|i: int| 0 <= i < before.len() ==> tokens@[i] == before[i]);
        tokens
    }

    fn is_at_end(&self) -> (r: bool)
        requires
            self.current <= self.source@.len(),
        ensures
            r == (self.current == self.source@.len()),
    {
        self.current >= self.source.len()
    }

    /// Consumes the next character, counting line breaks.
    fn advance(&mut self) -> (c: char)
        requires
            old(self).inv(),
            old(self).current < old(self).source@.len(),
        ensures
            final(self).errors == old(self).errors,
            final(self).inv(),
            c == old(self).source@[old(self).current as int],
            final(self).current == old(self).current + 1,
            final(self).source == old(self).source,
            final(self).start == old(self).start,
            final(self).tokens == old(self).tokens,
    {
        let c = self.source[self.current];
        assert(self.source@.subrange(0, self.current + 1).drop_last() =~= self.source@.subrange(
            0,
            self.current as int,
        ));
        self.current = self.current + 1;
        if c == '\n' {
            self.line = self.line + 1;
        }
        c
    }

    /// Consumes the next character when it is `expected`.
    fn find(&mut self, expected: char) -> (found: bool)
        requires
            old(self).inv(),
        ensures
            final(self).errors == old(self).errors,
            final(self).inv(),
            found == (old(self).current < old(self).source@.len()
                && old(self).source@[old(self).current as int] == expected),
            final(self).current == old(self).current + if found { 1int } else { 0int },
            final(self).source == old(self).source,
            final(self).start == old(self).start,
            final(self).tokens == old(self).tokens,
    {
        if self.is_at_end() || self.source[self.current] != expected {
            false
        } else {
            self.advance();
            true
        }
    }

    /// The next character, or `'\0'` at the end.
    fn peek(&self) -> (c: char)
        requires
            self.current <= self.source@.len(),
        ensures
            c == if self.current < self.source@.len() { self.source@[self.current as int] } else { '\0' },
    {
        if self.is_at_end() {
            '\0'
        } else {
            self.source[self.current]
        }
    }

    /// The character after the next one, or `'\0'` past the end.
    fn peek_next(&self) -> (c: char)
        requires
            self.current < self.source@.len() < usize::MAX,
        ensures
            c == if self.current + 1 < self.source@.len() {
                self.source@[self.current + 1]
            } else {
                '\0'
            },
    {
        if self.current + 1 >= self.source.len() {
            '\0'
        } else {
            self.source[self.current + 1]
        }
    }

    fn is_digit(&self, c: char) -> (r: bool)
        ensures
            r == is_digit_char(c),
    {
        c >= '0' && c <= '9'
    }

    fn is_alpha(&self, c: char) -> (r: bool)
        ensures
            r == is_alpha_char(c),
    {
        (c >= 'a' && c <= 'z') || (c >= 'A' && c <= 'Z') || c == '_'
    }

    fn is_alphanumeric(&self, c: char) -> (r: bool)
        ensures
            r == is_alphanumeric_char(c),
    {
        self.is_alpha(c) || self.is_digit(c)
    }

    /// The characters of `source` from `from` up to `to`.
    fn slice(&self, from: usize, to: usize) -> (r: Vec<char>)
        requires
            from <= to <= self.source@.len(),
        ensures
            r@ == self.source@.subrange(from as int, to as int),
    {
        let mut out: Vec<char> = Vec::new();
        let mut i: usize = from;
        while i < to
            invariant
                from <= i <= to <= self.source@.len(),
                out@ == self.source@.subrange(from as int, i as int),
            decreases to - i,
        {
            out.push(self.source[i]);
            i = i + 1;
            assert(out@ =~= self.source@.subrange(from as int, i as int));
        }
        out
    }

    fn add_token(&mut self, token_type: TokenType)
        requires
            old(self).inv(),
            old(self).start < old(self).current,
            shaped(
                token_type,
                old(self).source@.subrange(old(self).start as int, old(self).current as int),
                None,
            ),
        ensures
            final(self).errors == old(self).errors,
            final(self).inv(),
            final(self).current == old(self).current,
            final(self).source == old(self).source,
            final(self).start == old(self).start,
            final(self).tokens@.len() == old(self).tokens@.len() + 1,
            final(self).tokens@.drop_last() == old(self).tokens@,
            token_of_span(
                final(self).tokens@.last(),
                (token_type, old(self).start as int, old(self).current as int),
                old(self).source@,
            ),
    {
        self.add_literal(token_type, None)
    }

    fn add_literal(&mut self, token_type: TokenType, literal: Option<Literal>)
        requires
            old(self).inv(),
            old(self).start < old(self).current,
            shaped(
                token_type,
                old(self).source@.subrange(old(self).start as int, old(self).current as int),
                literal,
            ),
        ensures
            final(self).errors == old(self).errors,
            final(self).inv(),
            final(self).current == old(self).current,
            final(self).source == old(self).source,
            final(self).start == old(self).start,
            final(self).tokens@.len() == old(self).tokens@.len() + 1,
            final(self).tokens@.drop_last() == old(self).tokens@,
            token_of_span(
                final(self).tokens@.last(),
                (token_type, old(self).start as int, old(self).current as int),
                old(self).source@,
            ),
    {
        let chars = self.slice(self.start, self.current);
        let text = text_of(chars.as_slice());
        let token = Token::new(token_type, text, literal, self.line);
        self.tokens.push(token);
        assert(forall|i: int| 0 <= i < old(self).tokens@.len() ==> self.tokens@[i] == old(self).tokens@[i]);
        assert(self.tokens@.drop_last() =~= old(self).tokens@);
    }

    fn report(&mut self, message: &str)
        requires
            old(self).inv(),
        ensures
            final(self).inv(),
            final(self).current == old(self).current,
            final(self).source == old(self).source,
            final(self).start == old(self).start,
            final(self).tokens == old(self).tokens,
            final(self).reported() == old(self).reported().push(
                report_text(old(self).line as nat, Seq::empty(), message@),
            ),
    {
        let e = error(self.line, message);
        self.errors.push(e);
        assert(self.reported() =~= old(self).reported().push(e@));
    }

    /// Scans the piece of text that starts at `start`: a token, white space, a comment, or
    /// an error.
    fn scan_token(&mut self)
        requires
            old(self).inv(),
            old(self).start == old(self).current < old(self).source@.len(),
        ensures
            Scanner::piece_done(*old(self), *final(self)),
    {
        let c = self.advance();
        assert(self.source@.subrange(self.start as int, self.current as int) =~= seq![c]);
        match c {
            '(' => self.add_token(TokenType::LeftParen),
            ')' => self.add_token(TokenType::RightParen),
            '{' => self.add_token(TokenType::LeftBrace),
            '}' => self.add_token(TokenType::RightBrace),
            ',' => self.add_token(TokenType::Comma),
            '.' => self.add_token(TokenType::Dot),
            '-' => self.add_token(TokenType::Minus),
            '+' => self.add_token(TokenType::Plus),
            ';' => self.add_token(TokenType::Semicolon),
            '*' => self.add_token(TokenType::Star),
            '!' => {
                let found = self.find('=');
                proof {
                    if found {
                        assert(self.source@.subrange(self.start as int, self.current as int) =~= seq![c, '=']);
                    }
                }
                self.add_token(if found { TokenType::BangEqual } else { TokenType::Bang })
            },
            '=' => {
                let found = self.find('=');
                proof {
                    if found {
                        assert(self.source@.subrange(self.start as int, self.current as int) =~= seq![c, '=']);
                    }
                }
                self.add_token(if found { TokenType::EqualEqual } else { TokenType::Equal })
            },
            '>' => {
                let found = self.find('=');
                proof {
                    if found {
                        assert(self.source@.subrange(self.start as int, self.current as int) =~= seq![c, '=']);
                    }
                }
                self.add_token(if found { TokenType::GreaterEqual } else { TokenType::Greater })
            },
            '<' => {
                let found = self.find('=');
                proof {
                    if found {
                        assert(self.source@.subrange(self.start as int, self.current as int) =~= seq![c, '=']);
                    }
                }
                self.add_token(if found { TokenType::LessEqual } else { TokenType::Less })
            },
            '/' => {
                if self.find('/') {
                    let ghost src = self.source@;
                    while self.peek() != '\n' && !self.is_at_end()
                        invariant
                            self.inv(),
                            self.source@ == src,
                            src == old(self).source@,
                            self.start == old(self).start,
                            self.tokens == old(self).tokens,
                            self.errors == old(self).errors,
                            old(self).start + 2 <= self.current,
                            line_end(src, self.current as int) == line_end(src, old(self).start + 2),
                        decreases self.source@.len() - self.current,
                    {
                        self.advance();
                    }
                    assert(line_end(src, self.current as int) == self.current);
                } else {
                    self.add_token(TokenType::Slash);
                }
            },
            ' ' | '\r' | '\t' | '\n' => {},
            '"' => self.string(),
            _ => {
                if self.is_digit(c) {
                    self.number();
                } else if self.is_alpha(c) {
                    self.identifier();
                } else {
                    self.report("Unexpected character.");
                }
            },
        }
    }

    /// Scans a string literal whose opening quote was consumed.
    fn string(&mut self)
        requires
            old(self).inv(),
            old(self).start + 1 == old(self).current,
            old(self).source@[old(self).start as int] == '"',
        ensures
            Scanner::piece_done(*old(self), *final(self)),
    {
        let ghost src = self.source@;
        while self.peek() != '"' && !self.is_at_end()
            invariant
                self.inv(),
                self.source@ == src,
                src == old(self).source@,
                self.start == old(self).start,
                self.tokens == old(self).tokens,
                self.errors == old(self).errors,
                old(self).current <= self.current,
                quote_at(src, self.current as int) == quote_at(src, old(self).current as int),
            decreases self.source@.len() - self.current,
        {
            self.advance();
        }
        assert(quote_at(src, self.current as int) == self.current);
        if self.is_at_end() {
            self.report("Unterminated string.");
            return;
        }
        self.advance();
        let inner = self.slice(self.start + 1, self.current - 1);
        let value = text_of(inner.as_slice());
        assert(self.source@.subrange(self.start as int, self.current as int).subrange(
            1,
            self.current - self.start - 1,
        ) =~= inner@);
        self.add_literal(TokenType::String, Some(Literal::String(value)));
    }

    /// Scans a number literal whose first digit was consumed.
    fn number(&mut self)
        requires
            old(self).inv(),
            old(self).start + 1 == old(self).current,
            is_digit_char(old(self).source@[old(self).start as int]),
        ensures
            Scanner::piece_done(*old(self), *final(self)),
    {
        let ghost src = self.source@;
        let ghost p = self.start as int;
        let mut digits: Vec<char> = Vec::new();
        digits.push(self.source[self.start]);
        assert(digits@ =~= src.subrange(p, self.current as int));
        while self.is_digit(self.peek())
            invariant
                self.inv(),
                self.source@ == src,
                src == old(self).source@,
                self.start == old(self).start,
                p == self.start,
                self.tokens == old(self).tokens,
                self.errors == old(self).errors,
                p + 1 <= self.current,
                digits@ == src.subrange(p, self.current as int),
                forall|j: int| 0 <= j < digits@.len() ==> is_digit_char(#[trigger] digits@[j]),
                digits_end(src, self.current as int) == digits_end(src, p + 1),
            decreases self.source@.len() - self.current,
        {
            let c = self.advance();
            digits.push(c);
            assert(digits@ =~= src.subrange(p, self.current as int));
        }
        let whole_end = self.current;
        assert(digits_end(src, whole_end as int) == whole_end);
        let mut scale: usize = 0;
        if self.peek() == '.' && self.is_digit(self.peek_next()) {
            self.advance();
            assert(digits_end(src, whole_end + 1) == digits_end(src, whole_end + 2));
            assert(digits@ =~= src.subrange(p, whole_end as int) + src.subrange(whole_end + 1, self.current as int));
            while self.is_digit(self.peek())
                invariant
                    self.inv(),
                    self.source@ == src,
                    src == old(self).source@,
                    self.start == old(self).start,
                    p == self.start,
                    self.tokens == old(self).tokens,
                    self.errors == old(self).errors,
                    p < whole_end,
                    whole_end + 1 <= self.current,
                    src[whole_end as int] == '.',
                    scale == self.current - whole_end - 1,
                    digits@ == src.subrange(p, whole_end as int) + src.subrange(whole_end + 1, self.current as int),
                    forall|j: int| whole_end < j < self.current ==> is_digit_char(#[trigger] src[j]),
                    forall|j: int| 0 <= j < digits@.len() ==> is_digit_char(#[trigger] digits@[j]),
                    digits_end(src, self.current as int) == digits_end(src, whole_end + 2),
                decreases self.source@.len() - self.current,
            {
                let c = self.advance();
                digits.push(c);
                scale = scale + 1;
                assert(digits@ =~= src.subrange(p, whole_end as int) + src.subrange(
                    whole_end + 1,
                    self.current as int,
                ));
            }
            assert(digits_end(src, self.current as int) == self.current);
        }
        proof {
            if scale == 0 {
                assert(pow10(0) == 1);
            }
        }
        match Number::from_digits(digits.as_slice(), scale) {
            Some(n) => {
                proof {
                    let lex = src.subrange(p, self.current as int);
                    let k = whole_end - p;
                    assert(lex.subrange(0, k) =~= src.subrange(p, whole_end as int));
                    if scale == 0 {
                        assert(lex =~= digits@);
                        assert(number_split(lex, Some(Literal::Number(n)), lex.len() as int));
                    } else {
                        assert(lex.subrange(k + 1, lex.len() as int) =~= src.subrange(
                            whole_end + 1,
                            self.current as int,
                        ));
                        assert(number_split(lex, Some(Literal::Number(n)), k));
                    }
                }
                self.add_literal(TokenType::Number, Some(Literal::Number(n)))
            },
            None => self.report("Number literal out of range."),
        }
    }

    /// Scans an identifier or keyword whose first character was consumed.
    fn identifier(&mut self)
        requires
            old(self).inv(),
            old(self).start + 1 == old(self).current,
            is_alpha_char(old(self).source@[old(self).start as int]),
        ensures
            Scanner::piece_done(*old(self), *final(self)),
    {
        let ghost src = self.source@;
        while self.is_alphanumeric(self.peek())
            invariant
                self.inv(),
                self.source@ == src,
                src == old(self).source@,
                self.start == old(self).start,
                self.tokens == old(self).tokens,
                self.errors == old(self).errors,
                old(self).current <= self.current,
                forall|i: int| self.start <= i < self.current ==> is_alphanumeric_char(#[trigger] src[i]),
                word_end(src, self.current as int) == word_end(src, old(self).current as int),
            decreases self.source@.len() - self.current,
        {
            self.advance();
        }
        assert(word_end(src, self.current as int) == self.current);
        let text = self.slice(self.start, self.current);
        assert(is_word(text@));
        let token_type = match keyword(text.as_slice()) {
            Some(t) => t,
            None => TokenType::Identifier,
        };
        self.add_token(token_type);
    }
}

proof fn lemma_ends_bounded(src: Seq<char>, i: int)
    requires
        0 <= i <= src.len(),
    ensures
        i <= digits_end(src, i) <= src.len(),
        i <= word_end(src, i) <= src.len(),
        i <= line_end(src, i) <= src.len(),
        i <= quote_at(src, i) <= src.len(),
    decreases src.len() - i,
{
    if i < src.len() {
        lemma_ends_bounded(src, i + 1);
    }
}

/// Each piece of text is at least one character long and stays within the text.
proof fn lemma_token_end_moves(src: Seq<char>, p: int)
    requires
        0 <= p < src.len(),
    ensures
        p < token_end(src, p) <= src.len(),
{
    lemma_ends_bounded(src, p + 1);
    if p + 2 <= src.len() {
        lemma_ends_bounded(src, p + 2);
    }
    let a = digits_end(src, p + 1);
    if a + 2 <= src.len() {
        lemma_ends_bounded(src, a + 2);
    }
}

proof fn lemma_spans_within(src: Seq<char>, p: int)
    requires
        0 <= p,
    ensures
        forall|i: int|
            0 <= i < spans(src, p).len() ==> (#[trigger] spans(src, p)[i]).0 != TokenType::Eof && p
                <= spans(src, p)[i].1 < spans(src, p)[i].2 <= src.len(),
        forall|i: int, j: int|
            0 <= i < j < spans(src, p).len() ==> (#[trigger] spans(src, p)[i]).2 <= (#[trigger] spans(
                src,
                p,
            )[j]).1,
    decreases src.len() - p,
{
    if 0 <= p < src.len() {
        lemma_token_end_moves(src, p);
        let e = token_end(src, p);
        lemma_spans_within(src, e);
        let rest = spans(src, e);
        match token_kind(src, p) {
            Some(k) => {
                let all = spans(src, p);
                assert(all == seq![(k, p, e)] + rest);
                assert forall|i: int| 0 <= i < all.len() implies (#[trigger] all[i]).0 != TokenType::Eof && p
                    <= all[i].1 < all[i].2 <= src.len() by {
                    if i > 0 {
                        assert(all[i] == rest[i - 1]);
                    }
                }
                assert forall|i: int, j: int| 0 <= i < j < all.len() implies (#[trigger] all[i]).2 <= (
                #[trigger] all[j]).1 by {
                    assert(all[j] == rest[j - 1]);
                    if i > 0 {
                        assert(all[i] == rest[i - 1]);
                    }
                }
            },
            None => {},
        }
    }
}

/// Of the tokens scanned from any text: the last is the end of input and no other is;
/// every other token's lexeme is the non-empty run of the text between the offsets of
/// its span, and those runs follow one another in source order without overlapping.
pub proof fn lemma_scan_output(tokens: Seq<Token>, src: Seq<char>)
    requires
        scanned_from(tokens, src),
    ensures
        tokens.last().token_type == TokenType::Eof,
        forall|i: int|
            0 <= i < tokens.len() - 1 ==> (#[trigger] tokens[i]).token_type != TokenType::Eof && occurs_in(
                tokens[i].lexeme@,
                src,
            ),
        forall|i: int|
            0 <= i < tokens.len() - 1 ==> 0 <= spans(src, 0)[i].1 < spans(src, 0)[i].2 <= src.len()
                && (#[trigger] tokens[i]).lexeme@ == src.subrange(spans(src, 0)[i].1, spans(src, 0)[i].2),
        forall|i: int, j: int|
            0 <= i < j < tokens.len() - 1 ==> (#[trigger] spans(src, 0)[i]).2 <= (#[trigger] spans(src, 0)[j]).1,
{
    lemma_spans_within(src, 0);
    assert forall|i: int| 0 <= i < tokens.len() - 1 implies (#[trigger] tokens[i]).token_type
        != TokenType::Eof && occurs_in(tokens[i].lexeme@, src) by {
        let s = spans(src, 0)[i];
        assert(token_of_span(tokens[i], s, src));
        assert(src.subrange(s.1, s.2) == tokens[i].lexeme@);
    }
    assert forall|i: int| 0 <= i < tokens.len() - 1 implies 0 <= spans(src, 0)[i].1 < spans(src, 0)[i].2
        <= src.len() && (#[trigger] tokens[i]).lexeme@ == src.subrange(spans(src, 0)[i].1, spans(src, 0)[i].2) by {
        assert(token_of_span(tokens[i], spans(src, 0)[i], src));
    }
}

} // verus!
