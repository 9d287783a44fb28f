use vstd::prelude::*;
use crate::interpreter::{effect, run_all, Interpreter, Outcome};
use crate::parser::{filled, lemma_clean_parse_is_filled, parse_program, program_errors, syntax_diagnostic, Parser};
use crate::scanner::{scan_problems, scanned_from, Scanner};
use crate::token::Token;
use crate::value::InterpreterError;

verus! {

/// What one run of source text produced.
pub struct RunReport {
    /// The tokens scanned from the source.
    pub tokens: Vec<Token>,
    /// The scanning and syntax diagnostics, in the order they were found.
    pub diagnostics: Vec<String>,
    /// Whether the statements were executed; only a source without diagnostics is.
    pub executed: bool,
    /// One outcome per statement when executed: its value and printed text, or the failure.
    pub effects: Vec<Outcome>,
}

/// Scans and parses `source`; when that found no error, executes its statements in order
/// with `interpreter`, whose scope carries over from earlier runs.
pub fn run(interpreter: &mut Interpreter, source: String) -> (r: RunReport)
    requires
        source@.len() < usize::MAX,
    ensures
        scanned_from(r.tokens@, source@),
        r.diagnostics@.len() == scan_problems(source@, 0).len() + program_errors(r.tokens@, 0).len(),
        forall|i: int|
            0 <= i < scan_problems(source@, 0).len() ==> (#[trigger] r.diagnostics@[i])@ == scan_problems(
                source@,
                0,
            )[i],
        forall|j: int|
            0 <= j < program_errors(r.tokens@, 0).len() ==> (#[trigger] r.diagnostics@[scan_problems(
                source@,
                0,
            ).len() + j])@ == syntax_diagnostic(
                r.tokens@[program_errors(r.tokens@, 0)[j].at as int],
                program_errors(r.tokens@, 0)[j].problem,
            ),
        r.executed == (r.diagnostics@.len() == 0),
        r.executed ==> r.effects@.map_values(|x: Outcome| effect(x))
            == run_all(filled(parse_program(r.tokens@, 0)), old(interpreter).scope()).0
            && final(interpreter).scope() == run_all(
            filled(parse_program(r.tokens@, 0)),
            old(interpreter).scope(),
        ).1,
        !r.executed ==> r.effects@.len() == 0 && final(interpreter).scope() == old(interpreter).scope(),
{
    let mut scanner = Scanner::new(source);
    let tokens = scanner.scan_tokens();
    let mut diagnostics: Vec<String> = Vec::new();
    let scan_errors = scanner.errors();
    let ghost problems = scan_problems(source@, 0);
    assert(scan_errors@.map_values(|e: String| e@).len() == scan_errors@.len());
    let mut i: usize = 0;
    while i < scan_errors.len()
        invariant
            0 <= i <= scan_errors@.len(),
            scan_errors@.map_values(|e: String| e@) == problems,
            diagnostics@.len() == i,
            forall|n: int| 0 <= n < i ==> (#[trigger] diagnostics@[n])@ == problems[n],
        decreases scan_errors@.len() - i,
    {
        assert(scan_errors@.map_values(|e: String| e@)[i as int] == scan_errors@[i as int]@);
        diagnostics.push(scan_errors[i].clone());
        i = i + 1;
    }
    let mut parser = Parser::new(tokens);
    let parsed = parser.parse();
    let syntax = parser.diagnostics();
    let mut j: usize = 0;
    while j < syntax.len()
        invariant
            0 <= j <= syntax@.len(),
            i == problems.len(),
            diagnostics@.len() == i + j,
            forall|n: int| 0 <= n < i ==> (#[trigger] diagnostics@[n])@ == problems[n],
            forall|n: int| 0 <= n < j ==> (#[trigger] diagnostics@[i + n])@ == syntax@[n]@,
        decreases syntax@.len() - j,
    {
        diagnostics.push(syntax[j].clone());
        j = j + 1;
    }
    let tokens = parser.into_tokens();
    let ghost ts = tokens@;
    if diagnostics.len() > 0 {
        return RunReport { tokens, diagnostics, executed: false, effects: Vec::new() };
    }
    proof {
        lemma_clean_parse_is_filled(ts, 0);
    }
    let mut effects: Vec<Outcome> = Vec::new();
    let mut k: usize = 0;
    while k < parsed.len()
        invariant
            parsed@ == parse_program(ts, 0),
            forall|n: int| 0 <= n < parsed@.len() ==> (#[trigger] parsed@[n]) is Some,
            0 <= k <= parsed@.len(),
            effects@.map_values(|x: Outcome| effect(x)) == run_all(
                filled(parsed@).subrange(0, k as int),
                old(interpreter).scope(),
            ).0,
            interpreter.scope() == run_all(filled(parsed@).subrange(0, k as int), old(interpreter).scope()).1,
        decreases parsed@.len() - k,
    {
        let ghost before = effects@;
        match &parsed[k] {
            Some(statement) => {
                let r = interpreter.execute(statement);
                effects.push(r);
                proof {
                    let s = filled(parsed@).subrange(0, k + 1);
                    assert(s.drop_last() =~= filled(parsed@).subrange(0, k as int));
                    assert(s.last() == *statement);
                    assert(effects@.map_values(|x: Outcome| effect(x))
                        =~= before.map_values(|x: Outcome| effect(x)).push(
                        effect(r),
                    ));
                }
            },
            None => {},
        }
        k = k + 1;
    }
    assert(filled(parsed@).subrange(0, k as int) =~= filled(parsed@));
    RunReport { tokens, diagnostics, executed: true, effects }
}

} // verus!
