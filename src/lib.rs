pub mod eval;
pub mod lexer;
pub mod parser;
pub mod round_trip;
pub mod type_checker;

use vstd::prelude::*;
use crate::eval::{eval, eval_fuel};
use crate::lexer::{LexError, Token, chars_of, lex, lexer, tokens_view};
use crate::parser::{ParseError, Parser, Term, Type, term_at};
use crate::type_checker::{Context, TypeError, type_check, typing};

verus! {

/// Why a text could not be run.
#[derive(Debug, PartialEq)]
pub enum ProcessError {
    Lex(LexError),
    Parse(ParseError),
    Type(TypeError),
    /// Evaluation ran out of fuel (see `eval`).
    OutOfFuel,
}

/// Whether the text holds a `:` or a `->`, which is what asks for type checking.
pub open spec fn mentions_types(s: Seq<char>) -> bool {
    exists|i: int|
        0 <= i < s.len() && (#[trigger] s[i] == ':' || (s[i] == '-' && i + 1 < s.len() && s[i
            + 1] == '>'))
}

/// What running a parsed term gives: its type under the empty context when `check`
/// (a type error stops everything), and its normal form.
pub open spec fn run_term(t: Term, check: bool) -> Result<(Term, Option<Type>), ProcessError> {
    if check {
        match typing(t, Map::empty()) {
            Ok(ty) => match eval_fuel(t, u64::MAX as nat) {
                Some(v) => Ok((v, Some(ty))),
                None => Err(ProcessError::OutOfFuel),
            },
            Err(e) => Err(ProcessError::Type(e)),
        }
    } else {
        match eval_fuel(t, u64::MAX as nat) {
            Some(v) => Ok((v, None)),
            None => Err(ProcessError::OutOfFuel),
        }
    }
}

/// What running the tokens `ts` of a text gives, tokens after the first term ignored.
pub open spec fn run_tokens(ts: Seq<Token>, check: bool) -> Result<
    (Term, Option<Type>),
    ProcessError,
> {
    match term_at(ts, 0) {
        Ok((t, _)) => run_term(t, check),
        Err(e) => Err(ProcessError::Parse(e)),
    }
}

fn mentions_types_exec(s: &Vec<char>) -> (r: bool)
    ensures
        r == mentions_types(s@),
{
    let mut i: usize = 0;
    while i < s.len()
        invariant
            i <= s.len(),
            forall|j: int|
                0 <= j < i ==> !(#[trigger] s@[j] == ':' || (s@[j] == '-' && j + 1 < s@.len()
                    && s@[j + 1] == '>')),
        decreases s.len() - i,
    {
        if s[i] == ':' || (s[i] == '-' && i + 1 < s.len() && s[i + 1] == '>') {
            return true;
        }
        i = i + 1;
    }
    false
}

/// Lexes and parses `input`, type-checks the term when the text mentions types, and
/// reduces it to normal form.
pub fn process_input(input: String) -> (r: Result<(Term, Option<Type>), ProcessError>)
    ensures
        lex(input@) matches Err(e) ==> r == Err::<(Term, Option<Type>), ProcessError>(
            ProcessError::Lex(e),
        ),
        lex(input@) matches Ok(tv) ==> exists|ts: Seq<Token>|
            #[trigger] tokens_view(ts) == tv && r == run_tokens(ts, mentions_types(input@)),
{
    let cs = chars_of(input.as_str());
    let needs_type_check = mentions_types_exec(&cs);
    let tokens = match lexer(input) {
        Ok(ts) => ts,
        Err(e) => return Err(ProcessError::Lex(e)),
    };
    let ghost ts = tokens@;
    let mut parser = Parser::new(tokens);
    let term = match parser.parse_term() {
        Ok(t) => t,
        Err(e) => return Err(ProcessError::Parse(e)),
    };
    let ty = if needs_type_check {
        let ctx = Context::new();
        match type_check(&term, &ctx) {
            Ok(ty) => Some(ty),
            Err(e) => return Err(ProcessError::Type(e)),
        }
    } else {
        None
    };
    match eval(term) {
        Some(v) => Ok((v, ty)),
        None => Err(ProcessError::OutOfFuel),
    }
}

} // verus!
