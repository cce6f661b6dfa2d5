use vstd::prelude::*;
use crate::lexer::{Token, TokenModel, chars_of, string_of};

verus! {

/// A term of the simply typed lambda calculus.
#[derive(Debug, PartialEq)]
pub enum Term {
    /// A variable, with the type it is annotated with, if any.
    Var(String, Option<Type>),
    /// An abstraction: parameter, parameter type if given, body.
    Abs(String, Option<Type>, Box<Term>),
    /// An application of a function to an argument.
    App(Box<Term>, Box<Term>),
}

/// A simple type.
#[derive(Debug, PartialEq)]
pub enum Type {
    Named(String),
    Bool,
    Nat,
    Arrow(Box<Type>, Box<Type>),
}

/// Why a token sequence is not a term.
#[derive(Debug, PartialEq)]
pub enum ParseError {
    /// A given token was required; what came instead (`None` at the end).
    ExpectedToken { expected: Token, found: Option<Token> },
    /// A variable name was required after a lambda.
    ExpectedVariable(Option<Token>),
    /// No term can start with this.
    ExpectedTerm(Option<Token>),
    /// No type can start with this.
    ExpectedType(Option<Token>),
}

/// Structural equality of types, names compared by their characters.
pub open spec fn type_eq(a: Type, b: Type) -> bool
    decreases a,
{
    match (a, b) {
        (Type::Named(x), Type::Named(y)) => x@ == y@,
        (Type::Bool, Type::Bool) => true,
        (Type::Nat, Type::Nat) => true,
        (Type::Arrow(a1, a2), Type::Arrow(b1, b2)) => type_eq(*a1, *b1) && type_eq(*a2, *b2),
        _ => false,
    }
}

/// Decides `type_eq`.
pub fn types_equal(a: &Type, b: &Type) -> (r: bool)
    ensures
        r == type_eq(*a, *b),
    decreases a,
{
    match (a, b) {
        (Type::Named(x), Type::Named(y)) => *x == *y,
        (Type::Bool, Type::Bool) => true,
        (Type::Nat, Type::Nat) => true,
        (Type::Arrow(a1, a2), Type::Arrow(b1, b2)) => types_equal(a1, b1) && types_equal(a2, b2),
        _ => false,
    }
}

/// A copy of a type, equal to it.
pub fn copy_type(t: &Type) -> (r: Type)
    ensures
        r == *t,
    decreases t,
{
    match t {
        Type::Named(x) => Type::Named(x.clone()),
        Type::Bool => Type::Bool,
        Type::Nat => Type::Nat,
        Type::Arrow(a, b) => Type::Arrow(Box::new(copy_type(a)), Box::new(copy_type(b))),
    }
}

/// A copy of an optional type, equal to it.
pub fn copy_opt_type(t: &Option<Type>) -> (r: Option<Type>)
    ensures
        r == *t,
{
    match t {
        Some(ty) => Some(copy_type(ty)),
        None => None,
    }
}

/// A copy of a term, equal to it.
pub fn copy_term(t: &Term) -> (r: Term)
    ensures
        r == *t,
    decreases t,
{
    match t {
        Term::Var(x, ty) => Term::Var(x.clone(), copy_opt_type(ty)),
        Term::Abs(x, ty, body) => Term::Abs(x.clone(), copy_opt_type(ty), Box::new(copy_term(body))),
        Term::App(l, r) => Term::App(Box::new(copy_term(l)), Box::new(copy_term(r))),
    }
}

/// A copy of a token, equal to it.
pub fn copy_token(t: &Token) -> (r: Token)
    ensures
        r == *t,
{
    match t {
        Token::Lambda => Token::Lambda,
        Token::Dot => Token::Dot,
        Token::Colon => Token::Colon,
        Token::Arrow => Token::Arrow,
        Token::LParen => Token::LParen,
        Token::RParen => Token::RParen,
        Token::Var(s) => Token::Var(s.clone()),
        Token::Type(s) => Token::Type(s.clone()),
    }
}

// ---------------------------------------------------------------- display

/// The text of a type: arrows fully parenthesized as `(A -> B)`.
pub open spec fn type_display(t: Type) -> Seq<char>
    decreases t,
{
    match t {
        Type::Named(x) => x@,
        Type::Bool => seq!['B', 'o', 'o', 'l'],
        Type::Nat => seq!['N', 'a', 't'],
        Type::Arrow(a, b) => seq!['('] + type_display(*a) + seq![' ', '-', '>', ' '] + type_display(
            *b,
        ) + seq![')'],
    }
}

/// The text of a term: `x`, `x:T`, `λx.(body)`, `λx:T.(body)`, `(left) (right)`.
pub open spec fn term_display(t: Term) -> Seq<char>
    decreases t,
{
    match t {
        Term::Var(x, None) => x@,
        Term::Var(x, Some(ty)) => x@ + seq![':'] + type_display(ty),
        Term::Abs(x, None, body) => seq!['λ'] + x@ + seq!['.', '('] + term_display(*body) + seq![
            ')',
        ],
        Term::Abs(x, Some(ty), body) => seq!['λ'] + x@ + seq![':'] + type_display(ty) + seq![
            '.',
            '(',
        ] + term_display(*body) + seq![')'],
        Term::App(l, r) => seq!['('] + term_display(*l) + seq![')', ' ', '('] + term_display(*r)
            + seq![')'],
    }
}

fn push_str(out: &mut Vec<char>, s: &String)
    ensures
        final(out)@ == old(out)@ + s@,
{
    let cs = chars_of(s.as_str());
    let mut i: usize = 0;
    while i < cs.len()
        invariant
            i <= cs.len(),
            cs@ == s@,
            out@ == old(out)@ + cs@.take(i as int),
        decreases cs.len() - i,
    {
        out.push(cs[i]);
        i = i + 1;
        assert(out@ =~= old(out)@ + cs@.take(i as int));
    }
    assert(cs@.take(i as int) =~= cs@);
}

fn push_chars(out: &mut Vec<char>, cs: &[char])
    ensures
        final(out)@ == old(out)@ + cs@,
{
    let mut i: usize = 0;
    while i < cs.len()
        invariant
            i <= cs.len(),
            out@ == old(out)@ + cs@.take(i as int),
        decreases cs.len() - i,
    {
        out.push(cs[i]);
        i = i + 1;
        assert(out@ =~= old(out)@ + cs@.take(i as int));
    }
    assert(cs@.take(i as int) =~= cs@);
}

fn write_type(t: &Type, out: &mut Vec<char>)
    ensures
        final(out)@ == old(out)@ + type_display(*t),
    decreases t,
{
    match t {
        Type::Named(x) => push_str(out, x),
        Type::Bool => {
            push_chars(out, &['B', 'o', 'o', 'l']);
            assert(['B', 'o', 'o', 'l']@ =~= seq!['B', 'o', 'o', 'l']);
        },
        Type::Nat => {
            push_chars(out, &['N', 'a', 't']);
            assert(['N', 'a', 't']@ =~= seq!['N', 'a', 't']);
        },
        Type::Arrow(a, b) => {
            out.push('(');
            write_type(a, out);
            push_chars(out, &[' ', '-', '>', ' ']);
            assert([' ', '-', '>', ' ']@ =~= seq![' ', '-', '>', ' ']);
            write_type(b, out);
            out.push(')');
            assert(out@ =~= old(out)@ + type_display(*t));
        },
    }
}

fn write_term(t: &Term, out: &mut Vec<char>)
    ensures
        final(out)@ == old(out)@ + term_display(*t),
    decreases t,
{
    match t {
        Term::Var(x, None) => push_str(out, x),
        Term::Var(x, Some(ty)) => {
            push_str(out, x);
            out.push(':');
            write_type(ty, out);
            assert(out@ =~= old(out)@ + term_display(*t));
        },
        Term::Abs(x, ty, body) => {
            out.push('λ');
            push_str(out, x);
            match ty {
                Some(ty) => {
                    out.push(':');
                    write_type(ty, out);
                },
                None => {},
            }
            out.push('.');
            out.push('(');
            write_term(body, out);
            out.push(')');
            assert(out@ =~= old(out)@ + term_display(*t));
        },
        Term::App(l, r) => {
            out.push('(');
            write_term(l, out);
            out.push(')');
            out.push(' ');
            out.push('(');
            write_term(r, out);
            out.push(')');
            assert(out@ =~= old(out)@ + term_display(*t));
        },
    }
}

impl Type {
    /// The text of this type.
    pub fn display(&self) -> (r: String)
        ensures
            r@ == type_display(*self),
    {
        let mut out: Vec<char> = Vec::new();
        write_type(self, &mut out);
        assert(out@ =~= type_display(*self));
        string_of(out.as_slice())
    }
}

impl Term {
    /// The text of this term.
    pub fn display(&self) -> (r: String)
        ensures
            r@ == term_display(*self),
    {
        let mut out: Vec<char> = Vec::new();
        write_term(self, &mut out);
        assert(out@ =~= term_display(*self));
        string_of(out.as_slice())
    }
}

// ---------------------------------------------------------------- grammar

/// The outcome of reading one phrase: its value and the position after it.
pub type Parsed<T> = Result<(T, int), ParseError>;

/// The token at position `p`, if there is one.
pub open spec fn token_at(ts: Seq<Token>, p: int) -> Option<Token> {
    if 0 <= p < ts.len() {
        Some(ts[p])
    } else {
        None
    }
}

/// Whether the token at `p` is `t` (compared by view).
pub open spec fn is_at(ts: Seq<Token>, p: int, t: TokenModel) -> bool {
    0 <= p < ts.len() && ts[p]@ == t
}

/// The type that a type-name token denotes.
pub open spec fn type_of_name(t: String) -> Type {
    if t@ == seq!['B', 'o', 'o', 'l'] {
        Type::Bool
    } else if t@ == seq!['N', 'a', 't'] {
        Type::Nat
    } else {
        Type::Named(t)
    }
}

/// `term ::= application`
pub open spec fn term_at(ts: Seq<Token>, p: int) -> Parsed<Term>
    decreases ts.len() - p, 3nat,
{
    if 0 <= p <= ts.len() {
        application_at(ts, p)
    } else {
        Err(ParseError::ExpectedTerm(None))
    }
}

/// `application ::= atom atom*`, folded to the left.
pub open spec fn application_at(ts: Seq<Token>, p: int) -> Parsed<Term>
    decreases ts.len() - p, 2nat,
{
    if 0 <= p <= ts.len() {
        match atom_at(ts, p) {
            Ok((t, q)) => if p < q <= ts.len() {
                app_tail(ts, q, t)
            } else {
                Ok((t, q))
            },
            Err(e) => Err(e),
        }
    } else {
        Err(ParseError::ExpectedTerm(None))
    }
}

/// Whether the token at `p` can start an argument.
pub open spec fn starts_atom(ts: Seq<Token>, p: int) -> bool {
    0 <= p < ts.len() && (ts[p] is Var || ts[p] is LParen || ts[p] is Lambda)
}

/// Further arguments applied to `acc`, from position `p` on.
pub open spec fn app_tail(ts: Seq<Token>, p: int, acc: Term) -> Parsed<Term>
    decreases ts.len() - p, 2nat,
{
    if starts_atom(ts, p) {
        match atom_at(ts, p) {
            Ok((a, q)) => {
                // an atom always consumes a token; the guard makes that visible to termination
                if p < q <= ts.len() {
                    app_tail(ts, q, Term::App(Box::new(acc), Box::new(a)))
                } else {
                    Ok((Term::App(Box::new(acc), Box::new(a)), q))
                }
            },
            Err(e) => Err(e),
        }
    } else {
        Ok((acc, p))
    }
}

/// `atom ::= var (':' type)? | abstraction | '(' term ')'`
pub open spec fn atom_at(ts: Seq<Token>, p: int) -> Parsed<Term>
    decreases ts.len() - p, 1nat,
{
    if 0 <= p < ts.len() {
        match ts[p] {
            Token::Var(name) => {
                if is_at(ts, p + 1, TokenModel::Colon) {
                    match type_at(ts, p + 2) {
                        Ok((ty, q)) => Ok((Term::Var(name, Some(ty)), q)),
                        Err(e) => Err(e),
                    }
                } else {
                    Ok((Term::Var(name, None), p + 1))
                }
            },
            Token::Lambda => abstraction_at(ts, p),
            Token::LParen => match term_at(ts, p + 1) {
                Ok((t, q)) => if is_at(ts, q, TokenModel::RParen) {
                    Ok((t, q + 1))
                } else {
                    Err(ParseError::ExpectedToken { expected: Token::RParen, found: token_at(ts, q) })
                },
                Err(e) => Err(e),
            },
            _ => Err(ParseError::ExpectedTerm(Some(ts[p]))),
        }
    } else {
        Err(ParseError::ExpectedTerm(None))
    }
}

/// `abstraction ::= 'λ' var (':' type)? '.' term`
pub open spec fn abstraction_at(ts: Seq<Token>, p: int) -> Parsed<Term>
    decreases ts.len() - p, 0nat,
{
    if !(0 <= p <= ts.len()) {
        Err(ParseError::ExpectedTerm(None))
    } else if !is_at(ts, p, TokenModel::Lambda) {
        Err(ParseError::ExpectedToken { expected: Token::Lambda, found: token_at(ts, p) })
    } else if !(p + 1 < ts.len() && ts[p + 1] is Var) {
        Err(ParseError::ExpectedVariable(token_at(ts, p + 1)))
    } else {
        let name = ts[p + 1]->Var_0;
        let annotated: Parsed<Option<Type>> = if is_at(ts, p + 2, TokenModel::Colon) {
            match type_at(ts, p + 3) {
                Ok((ty, q)) => Ok((Some(ty), q)),
                Err(e) => Err(e),
            }
        } else {
            Ok((None, p + 2))
        };
        match annotated {
            Ok((ty, q)) => if !is_at(ts, q, TokenModel::Dot) {
                Err(ParseError::ExpectedToken { expected: Token::Dot, found: token_at(ts, q) })
            } else if p < q {
                match term_at(ts, q + 1) {
                    Ok((body, r)) => Ok((Term::Abs(name, ty, Box::new(body)), r)),
                    Err(e) => Err(e),
                }
            } else {
                // unreachable: the dot comes after the lambda
                Err(ParseError::ExpectedTerm(None))
            },
            Err(e) => Err(e),
        }
    }
}

/// `type ::= simple_type ('->' type)?`, so arrows associate to the right.
pub open spec fn type_at(ts: Seq<Token>, p: int) -> Parsed<Type>
    decreases ts.len() - p, 1nat,
{
    if !(0 <= p <= ts.len()) {
        Err(ParseError::ExpectedType(None))
    } else {
        match simple_type_at(ts, p) {
            Ok((a, q)) => if is_at(ts, q, TokenModel::Arrow) && p < q {
                match type_at(ts, q + 1) {
                    Ok((b, r)) => Ok((Type::Arrow(Box::new(a), Box::new(b)), r)),
                    Err(e) => Err(e),
                }
            } else {
                Ok((a, q))
            },
            Err(e) => Err(e),
        }
    }
}

/// `simple_type ::= type_name | '(' type ')'`
pub open spec fn simple_type_at(ts: Seq<Token>, p: int) -> Parsed<Type>
    decreases ts.len() - p, 0nat,
{
    if 0 <= p < ts.len() {
        match ts[p] {
            Token::Type(t) => Ok((type_of_name(t), p + 1)),
            Token::LParen => match type_at(ts, p + 1) {
                Ok((ty, q)) => if is_at(ts, q, TokenModel::RParen) {
                    Ok((ty, q + 1))
                } else {
                    Err(ParseError::ExpectedToken { expected: Token::RParen, found: token_at(ts, q) })
                },
                Err(e) => Err(e),
            },
            _ => Err(ParseError::ExpectedType(Some(ts[p]))),
        }
    } else {
        Err(ParseError::ExpectedType(None))
    }
}

// ---------------------------------------------------------------- parser

/// Token equality by view.
fn token_eq(a: &Token, b: &Token) -> (r: bool)
    ensures
        r == (a@ == b@),
{
    match (a, b) {
        (Token::Lambda, Token::Lambda) => true,
        (Token::Dot, Token::Dot) => true,
        (Token::Colon, Token::Colon) => true,
        (Token::Arrow, Token::Arrow) => true,
        (Token::LParen, Token::LParen) => true,
        (Token::RParen, Token::RParen) => true,
        (Token::Var(x), Token::Var(y)) => *x == *y,
        (Token::Type(x), Token::Type(y)) => *x == *y,
        _ => false,
    }
}

/// A recursive-descent parser over a token sequence, with one token of lookahead.
pub struct Parser {
    tokens: Vec<Token>,
    position: usize,
}

impl Parser {
    /// The tokens being read.
    pub closed spec fn tokens_view(&self) -> Seq<Token> {
        self.tokens@
    }

    /// The position of the next token to read.
    pub closed spec fn pos(&self) -> int {
        self.position as int
    }

    /// The position never passes the end.
    pub closed spec fn wf(&self) -> bool {
        self.position <= self.tokens.len()
    }

    /// A parser at the start of `tokens`.
    pub fn new(tokens: Vec<Token>) -> (r: Self)
        ensures
            r.wf(),
            r.tokens_view() == tokens@,
            r.pos() == 0,
    {
        Self { tokens, position: 0 }
    }

    fn peek(&self) -> (r: Option<&Token>)
        requires
            self.wf(),
        ensures
            match r {
                Some(t) => token_at(self.tokens@, self.position as int) == Some(*t),
                None => token_at(self.tokens@, self.position as int) is None,
            },
    {
        if self.position < self.tokens.len() {
            Some(&self.tokens[self.position])
        } else {
            None
        }
    }

    fn current(&self) -> (r: Option<Token>)
        requires
            self.wf(),
        ensures
            r == token_at(self.tokens@, self.position as int),
    {
        match self.peek() {
            Some(t) => Some(copy_token(t)),
            None => None,
        }
    }

    fn peek_is(&self, expected: &Token) -> (r: bool)
        requires
            self.wf(),
        ensures
            r == is_at(self.tokens@, self.position as int, expected@),
    {
        match self.peek() {
            Some(t) => token_eq(t, expected),
            None => false,
        }
    }

    fn advance(&mut self)
        requires
            old(self).wf(),
            old(self).position < old(self).tokens.len(),
        ensures
            final(self).wf(),
            final(self).tokens@ == old(self).tokens@,
            final(self).position == old(self).position + 1,
    {
        self.position = self.position + 1;
    }

    fn expect(&mut self, expected: Token) -> (r: Result<(), ParseError>)
        requires
            old(self).wf(),
        ensures
            final(self).wf(),
            final(self).tokens@ == old(self).tokens@,
            is_at(old(self).tokens@, old(self).position as int, expected@) ==> r is Ok
                && final(self).position == old(self).position + 1,
            !is_at(old(self).tokens@, old(self).position as int, expected@) ==> r == Err::<
                (),
                ParseError,
            >(
                ParseError::ExpectedToken {
                    expected,
                    found: token_at(old(self).tokens@, old(self).position as int),
                },
            ),
    {
        if self.peek_is(&expected) {
            self.advance();
            Ok(())
        } else {
            Err(ParseError::ExpectedToken { expected, found: self.current() })
        }
    }

    /// Reads one term from the current position; tokens after it are left unread.
    pub fn parse_term(&mut self) -> (r: Result<Term, ParseError>)
        requires
            old(self).wf(),
        ensures
            final(self).wf(),
            final(self).tokens_view() == old(self).tokens_view(),
            match term_at(old(self).tokens_view(), old(self).pos()) {
                Ok((t, q)) => r == Ok::<Term, ParseError>(t) && final(self).pos() == q
                    && old(self).pos() < q,
                Err(e) => r == Err::<Term, ParseError>(e),
            },
        decreases old(self).tokens_view().len() - old(self).pos(), 3nat,
    {
        self.parse_application()
    }

    fn parse_abstraction(&mut self) -> (r: Result<Term, ParseError>)
        requires
            old(self).wf(),
        ensures
            final(self).wf(),
            final(self).tokens@ == old(self).tokens@,
            match abstraction_at(old(self).tokens@, old(self).position as int) {
                Ok((t, q)) => r == Ok::<Term, ParseError>(t) && final(self).position == q
                    && old(self).position < q,
                Err(e) => r == Err::<Term, ParseError>(e),
            },
        decreases old(self).tokens_view().len() - old(self).pos(), 0nat,
    {
        match self.expect(Token::Lambda) {
            Ok(()) => {},
            Err(e) => return Err(e),
        }
        let name = match self.peek() {
            Some(Token::Var(name)) => name.clone(),
            _ => return Err(ParseError::ExpectedVariable(self.current())),
        };
        self.advance();
        let param_type = if self.peek_is(&Token::Colon) {
            self.advance();
            match self.parse_type() {
                Ok(ty) => Some(ty),
                Err(e) => return Err(e),
            }
        } else {
            None
        };
        match self.expect(Token::Dot) {
            Ok(()) => {},
            Err(e) => return Err(e),
        }
        match self.parse_term() {
            Ok(body) => Ok(Term::Abs(name, param_type, Box::new(body))),
            Err(e) => Err(e),
        }
    }

    fn parse_type(&mut self) -> (r: Result<Type, ParseError>)
        requires
            old(self).wf(),
        ensures
            final(self).wf(),
            final(self).tokens@ == old(self).tokens@,
            match type_at(old(self).tokens@, old(self).position as int) {
                Ok((t, q)) => r == Ok::<Type, ParseError>(t) && final(self).position == q
                    && old(self).position < q,
                Err(e) => r == Err::<Type, ParseError>(e),
            },
        decreases old(self).tokens_view().len() - old(self).pos(), 1nat,
    {
        let ty = match self.parse_simple_type() {
            Ok(ty) => ty,
            Err(e) => return Err(e),
        };
        if self.peek_is(&Token::Arrow) {
            self.advance();
            match self.parse_type() {
                Ok(right) => Ok(Type::Arrow(Box::new(ty), Box::new(right))),
                Err(e) => Err(e),
            }
        } else {
            Ok(ty)
        }
    }

    fn starts_atom(&self) -> (r: bool)
        requires
            self.wf(),
        ensures
            r == starts_atom(self.tokens@, self.position as int),
    {
        match self.peek() {
            Some(Token::Var(_)) | Some(Token::LParen) | Some(Token::Lambda) => true,
            _ => false,
        }
    }

    fn parse_application(&mut self) -> (r: Result<Term, ParseError>)
        requires
            old(self).wf(),
        ensures
            final(self).wf(),
            final(self).tokens@ == old(self).tokens@,
            match application_at(old(self).tokens@, old(self).position as int) {
                Ok((t, q)) => r == Ok::<Term, ParseError>(t) && final(self).position == q
                    && old(self).position < q,
                Err(e) => r == Err::<Term, ParseError>(e),
            },
        decreases old(self).tokens_view().len() - old(self).pos(), 2nat,
    {
        let ghost ts = self.tokens@;
        let ghost p0 = self.position as int;
        let mut term = match self.parse_atom() {
            Ok(t) => t,
            Err(e) => return Err(e),
        };
        while self.starts_atom()
            invariant
                self.wf(),
                self.tokens@ == ts,
                ts == old(self).tokens@,
                p0 == old(self).position,
                p0 < self.position,
                0 <= p0 <= ts.len(),
                application_at(ts, p0) == app_tail(ts, self.position as int, term),
            decreases self.tokens@.len() - self.position,
        {
            let ghost before = self.position as int;
            let ghost acc = term;
            match self.parse_atom() {
                Ok(arg) => {
                    term = Term::App(Box::new(term), Box::new(arg));
                },
                Err(e) => return Err(e),
            }
            assert(app_tail(ts, before, acc) == app_tail(ts, self.position as int, term));
        }
        Ok(term)
    }

    fn parse_atom(&mut self) -> (r: Result<Term, ParseError>)
        requires
            old(self).wf(),
        ensures
            final(self).wf(),
            final(self).tokens@ == old(self).tokens@,
            match atom_at(old(self).tokens@, old(self).position as int) {
                Ok((t, q)) => r == Ok::<Term, ParseError>(t) && final(self).position == q
                    && old(self).position < q,
                Err(e) => r == Err::<Term, ParseError>(e),
            },
        decreases old(self).tokens_view().len() - old(self).pos(), 1nat,
    {
        match self.peek() {
            Some(Token::Var(name)) => {
                let name = name.clone();
                self.advance();
                let ty = if self.peek_is(&Token::Colon) {
                    self.advance();
                    match self.parse_type() {
                        Ok(ty) => Some(ty),
                        Err(e) => return Err(e),
                    }
                } else {
                    None
                };
                Ok(Term::Var(name, ty))
            },
            Some(Token::Lambda) => self.parse_abstraction(),
            Some(Token::LParen) => {
                self.advance();
                let term = match self.parse_term() {
                    Ok(t) => t,
                    Err(e) => return Err(e),
                };
                match self.expect(Token::RParen) {
                    Ok(()) => Ok(term),
                    Err(e) => Err(e),
                }
            },
            _ => Err(ParseError::ExpectedTerm(self.current())),
        }
    }

    fn parse_simple_type(&mut self) -> (r: Result<Type, ParseError>)
        requires
            old(self).wf(),
        ensures
            final(self).wf(),
            final(self).tokens@ == old(self).tokens@,
            match simple_type_at(old(self).tokens@, old(self).position as int) {
                Ok((t, q)) => r == Ok::<Type, ParseError>(t) && final(self).position == q
                    && old(self).position < q,
                Err(e) => r == Err::<Type, ParseError>(e),
            },
        decreases old(self).tokens_view().len() - old(self).pos(), 0nat,
    {
        match self.peek() {
            Some(Token::Type(t)) => {
                let bool_name: Vec<char> = vec!['B', 'o', 'o', 'l'];
                let nat_name: Vec<char> = vec!['N', 'a', 't'];
                let cs = chars_of(t.as_str());
                let ty = if same_chars(&cs, &bool_name) {
                    Type::Bool
                } else if same_chars(&cs, &nat_name) {
                    Type::Nat
                } else {
                    Type::Named(t.clone())
                };
                self.advance();
                Ok(ty)
            },
            Some(Token::LParen) => {
                self.advance();
                let ty = match self.parse_type() {
                    Ok(ty) => ty,
                    Err(e) => return Err(e),
                };
                match self.expect(Token::RParen) {
                    Ok(()) => Ok(ty),
                    Err(e) => Err(e),
                }
            },
            _ => Err(ParseError::ExpectedType(self.current())),
        }
    }
}

fn same_chars(a: &Vec<char>, b: &Vec<char>) -> (r: bool)
    ensures
        r == (a@ == b@),
{
    if a.len() != b.len() {
        return false;
    }
    let mut i: usize = 0;
    while i < a.len()
        invariant
            i <= a.len() == b.len(),
            a@.take(i as int) == b@.take(i as int),
        decreases a.len() - i,
    {
        if a[i] != b[i] {
            assert(a@[i as int] != b@[i as int]);
            return false;
        }
        i = i + 1;
        assert(a@.take(i as int) =~= a@.take(i - 1) + seq![a@[i - 1]]);
        assert(b@.take(i as int) =~= b@.take(i - 1) + seq![b@[i - 1]]);
    }
    assert(a@ =~= a@.take(i as int));
    assert(b@ =~= b@.take(i as int));
    true
}

} // verus!
