use vstd::prelude::*;
use crate::text::{decimal, push_decimal, push_text, text_of};
use crate::token::{Token, TokenType};

verus! {

/// A diagnostic line: `[line: N] Error<location>: <message>`.
pub open spec fn report_text(line: nat, location: Seq<char>, message: Seq<char>) -> Seq<char> {
    "[line: "@ + decimal(line) + "] Error"@ + location + ": "@ + message
}

/// Where a diagnostic about `token` points: at the end of input, or at its lexeme.
pub open spec fn location_of(token: Token) -> Seq<char> {
    if token.token_type == TokenType::Eof {
        " at end"@
    } else {
        " at '"@ + token.lexeme@ + "'"@
    }
}

fn report(line: usize, location: &[char], message: &str) -> (r: String)
    ensures
        r@ == report_text(line as nat, location@, message@),
{
    let mut out: Vec<char> = Vec::new();
    push_text(&mut out, "[line: ");
    push_decimal(&mut out, line as u128);
    push_text(&mut out, "] Error");
    let ghost before = out@;
    let mut i: usize = 0;
    while i < location.len()
        invariant
            0 <= i <= location@.len(),
            out@ == before + location@.subrange(0, i as int),
        decreases location@.len() - i,
    {
        out.push(location[i]);
        i = i + 1;
        assert(out@ =~= before + location@.subrange(0, i as int));
    }
    assert(location@.subrange(0, i as int) =~= location@);
    push_text(&mut out, ": ");
    push_text(&mut out, message);
    text_of(out.as_slice())
}

/// The diagnostic for an error found on `line` with no token to point at.
pub fn error(line: usize, message: &str) -> (r: String)
    ensures
        r@ == report_text(line as nat, Seq::empty(), message@),
{
    let none: Vec<char> = Vec::new();
    report(line, none.as_slice(), message)
}

/// The diagnostic for an error at `token`.
pub fn token_error(token: Token, message: &str) -> (r: String)
    ensures
        r@ == report_text(token.line as nat, location_of(token), message@),
{
    let mut location: Vec<char> = Vec::new();
    if token.token_type == TokenType::Eof {
        push_text(&mut location, " at end");
    } else {
        push_text(&mut location, " at '");
        push_text(&mut location, token.lexeme.as_str());
        push_text(&mut location, "'");
    }
    report(token.line, location.as_slice(), message)
}

} // verus!
