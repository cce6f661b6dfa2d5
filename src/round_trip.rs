use vstd::prelude::*;
use crate::lexer::{
    LexError, Token, TokenModel, classify, cons, cons_all, ident_end, is_letter, is_letter_or_digit,
    lex, lex_from, tokens_view,
};
use crate::parser::{
    Term, Type, app_tail, application_at, atom_at, abstraction_at, is_at, simple_type_at,
    starts_atom, term_at, term_display, type_at, type_display, type_of_name,
};

verus! {

/// Type names other than the two that the parser reads as `Bool` and `Nat`.
pub open spec fn type_well_named(ty: Type) -> bool
    decreases ty,
{
    match ty {
        Type::Named(n) => n@ != seq!['B', 'o', 'o', 'l'] && n@ != seq!['N', 'a', 't'],
        Type::Bool => true,
        Type::Nat => true,
        Type::Arrow(a, b) => type_well_named(*a) && type_well_named(*b),
    }
}

/// Every type annotation in the term is `type_well_named`.
pub open spec fn term_well_named(t: Term) -> bool
    decreases t,
{
    match t {
        Term::Var(_, None) => true,
        Term::Var(_, Some(ty)) => type_well_named(ty),
        Term::Abs(_, None, body) => term_well_named(*body),
        Term::Abs(_, Some(ty), body) => type_well_named(ty) && term_well_named(*body),
        Term::App(l, r) => term_well_named(*l) && term_well_named(*r),
    }
}

/// The tokens of a displayed type.
pub open spec fn type_tokens(ty: Type) -> Seq<TokenModel>
    decreases ty,
{
    match ty {
        Type::Named(n) => seq![TokenModel::Type(n@)],
        Type::Bool => seq![TokenModel::Type(seq!['B', 'o', 'o', 'l'])],
        Type::Nat => seq![TokenModel::Type(seq!['N', 'a', 't'])],
        Type::Arrow(a, b) => seq![TokenModel::LParen] + type_tokens(*a) + seq![TokenModel::Arrow]
            + type_tokens(*b) + seq![TokenModel::RParen],
    }
}

/// `m` between parentheses.
pub open spec fn parens(m: Seq<TokenModel>) -> Seq<TokenModel> {
    seq![TokenModel::LParen] + m + seq![TokenModel::RParen]
}

/// The tokens of a displayed term.
pub open spec fn term_tokens(t: Term) -> Seq<TokenModel>
    decreases t,
{
    match t {
        Term::Var(x, None) => seq![TokenModel::Var(x@)],
        Term::Var(x, Some(ty)) => seq![TokenModel::Var(x@), TokenModel::Colon] + type_tokens(ty),
        Term::Abs(x, None, body) => seq![TokenModel::Lambda, TokenModel::Var(x@), TokenModel::Dot]
            + parens(term_tokens(*body)),
        Term::Abs(x, Some(ty), body) => seq![
            TokenModel::Lambda,
            TokenModel::Var(x@),
            TokenModel::Colon,
        ] + type_tokens(ty) + seq![TokenModel::Dot] + parens(term_tokens(*body)),
        Term::App(l, r) => parens(term_tokens(*l)) + parens(term_tokens(*r)),
    }
}

/// The tokens of `ts` from `p` on begin with `m`.
pub open spec fn tokens_at(ts: Seq<Token>, p: int, m: Seq<TokenModel>) -> bool {
    &&& 0 <= p
    &&& p + m.len() <= ts.len()
    &&& forall|k: int| 0 <= k < m.len() ==> ts[p + k]@ == #[trigger] m[k]
}

proof fn lemma_tokens_at_part(ts: Seq<Token>, p: int, m: Seq<TokenModel>, off: int, part: Seq<TokenModel>)
    requires
        tokens_at(ts, p, m),
        0 <= off,
        off + part.len() <= m.len(),
        m.subrange(off, off + part.len()) == part,
    ensures
        tokens_at(ts, p + off, part),
{
    assert forall|k: int| 0 <= k < part.len() implies ts[p + off + k]@ == #[trigger] part[k] by {
        assert(part[k] == m.subrange(off, off + part.len())[k]);
        assert(m[off + k] == part[k]);
        assert(ts[p + (off + k)]@ == m[off + k]);
    }
}

proof fn lemma_parse_simple_type(ts: Seq<Token>, p: int, ty: Type)
    requires
        type_well_named(ty),
        tokens_at(ts, p, type_tokens(ty)),
    ensures
        simple_type_at(ts, p) matches Ok((ty2, q)) && q == p + type_tokens(ty).len()
            && type_display(ty2) == type_display(ty),
    decreases ty, 0nat,
{
    let m = type_tokens(ty);
    assert(ts[p + 0]@ == m[0]);
    match ty {
        Type::Named(n) => {
            assert(ts[p] is Type);
        },
        Type::Bool => {
            assert(ts[p] is Type);
        },
        Type::Nat => {
            assert(ts[p] is Type);
        },
        Type::Arrow(a, b) => {
            let ma = type_tokens(*a);
            let mb = type_tokens(*b);
            let na = ma.len() as int;
            let nb = mb.len() as int;
            assert(ts[p] is LParen);
            assert(m.subrange(1, 1 + na) =~= ma);
            lemma_tokens_at_part(ts, p, m, 1, ma);
            lemma_parse_simple_type(ts, p + 1, *a);
            let q1 = p + 1 + na;
            assert(ts[p + (1 + na)]@ == m[1 + na]);
            assert(m.subrange(2 + na, 2 + na + nb) =~= mb);
            lemma_tokens_at_part(ts, p, m, 2 + na, mb);
            let q2 = q1 + 1 + nb;
            assert(ts[p + (2 + na + nb)]@ == m[2 + na + nb]);
            lemma_parse_type(ts, q1 + 1, *b);
            assert(is_at(ts, q1, TokenModel::Arrow));
            assert(is_at(ts, q2, TokenModel::RParen));
        },
    }
}

proof fn lemma_parse_type(ts: Seq<Token>, p: int, ty: Type)
    requires
        type_well_named(ty),
        tokens_at(ts, p, type_tokens(ty)),
        !is_at(ts, p + type_tokens(ty).len(), TokenModel::Arrow),
    ensures
        type_at(ts, p) matches Ok((ty2, q)) && q == p + type_tokens(ty).len()
            && type_display(ty2) == type_display(ty),
    decreases ty, 1nat,
{
    lemma_parse_simple_type(ts, p, ty);
}

/// What may follow a term's tokens for the parser to stop right after them.
pub open spec fn term_end(ts: Seq<Token>, j: int) -> bool {
    j == ts.len() || (0 <= j < ts.len() && ts[j]@ == TokenModel::RParen)
}

proof fn lemma_parse_paren(ts: Seq<Token>, p: int, t: Term)
    requires
        term_well_named(t),
        tokens_at(ts, p, parens(term_tokens(t))),
    ensures
        atom_at(ts, p) matches Ok((t2, q)) && q == p + term_tokens(t).len() + 2
            && term_display(t2) == term_display(t),
    decreases t, 2nat,
{
    let m = parens(term_tokens(t));
    let n = term_tokens(t).len() as int;
    assert(ts[p + 0]@ == m[0]);
    assert(ts[p + (n + 1)]@ == m[n + 1]);
    assert(m.subrange(1, 1 + n) =~= term_tokens(t));
    lemma_tokens_at_part(ts, p, m, 1, term_tokens(t));
    lemma_parse_term(ts, p + 1, t);
    assert(ts[p] is LParen);
    assert(is_at(ts, p + 1 + n, TokenModel::RParen));
}

proof fn lemma_term_of_atom(ts: Seq<Token>, p: int)
    requires
        atom_at(ts, p) matches Ok((a, q)) && p < q <= ts.len() && !starts_atom(ts, q),
        0 <= p,
    ensures
        term_at(ts, p) == atom_at(ts, p),
{
    let (a, q) = atom_at(ts, p)->Ok_0;
    assert(app_tail(ts, q, a) == Ok::<(Term, int), crate::parser::ParseError>((a, q)));
    assert(application_at(ts, p) == atom_at(ts, p));
}

proof fn lemma_parse_term(ts: Seq<Token>, p: int, t: Term)
    requires
        term_well_named(t),
        tokens_at(ts, p, term_tokens(t)),
        term_end(ts, p + term_tokens(t).len()),
    ensures
        term_at(ts, p) matches Ok((t2, q)) && q == p + term_tokens(t).len()
            && term_display(t2) == term_display(t),
    decreases t, 1nat,
{
    let n = term_tokens(t).len() as int;
    assert(!starts_atom(ts, p + n));
    match t {
        Term::App(_, _) => lemma_parse_app(ts, p, t),
        _ => {
            lemma_parse_atom(ts, p, t);
            lemma_term_of_atom(ts, p);
        },
    }
}

proof fn lemma_parse_app(ts: Seq<Token>, p: int, t: Term)
    requires
        t is App,
        term_well_named(t),
        tokens_at(ts, p, term_tokens(t)),
        term_end(ts, p + term_tokens(t).len()),
    ensures
        term_at(ts, p) matches Ok((t2, q)) && q == p + term_tokens(t).len()
            && term_display(t2) == term_display(t),
    decreases t, 0nat,
{
    let m = term_tokens(t);
    let n = m.len() as int;
    assert(!starts_atom(ts, p + n));
    if let Term::App(l, r) = t {
        let ml = parens(term_tokens(*l));
        let mr = parens(term_tokens(*r));
        let nl = ml.len() as int;
        assert(m.subrange(0, nl) =~= ml);
        lemma_tokens_at_part(ts, p, m, 0, ml);
        assert(m.subrange(nl, nl + mr.len() as int) =~= mr);
        lemma_tokens_at_part(ts, p, m, nl, mr);
        lemma_parse_paren(ts, p, *l);
        lemma_parse_paren(ts, p + nl, *r);
        assert(ts[p + nl]@ == m[nl]);
        assert(starts_atom(ts, p + nl));
        let (l2, q1) = atom_at(ts, p)->Ok_0;
        let (r2, q2) = atom_at(ts, q1)->Ok_0;
        assert(app_tail(ts, q2, Term::App(Box::new(l2), Box::new(r2))) == Ok::<
            (Term, int),
            crate::parser::ParseError,
        >((Term::App(Box::new(l2), Box::new(r2)), q2)));
        assert(app_tail(ts, q1, l2) == app_tail(ts, q2, Term::App(Box::new(l2), Box::new(r2))));
        assert(application_at(ts, p) == app_tail(ts, q1, l2));
    }
}

proof fn lemma_parse_atom(ts: Seq<Token>, p: int, t: Term)
    requires
        !(t is App),
        term_well_named(t),
        tokens_at(ts, p, term_tokens(t)),
        term_end(ts, p + term_tokens(t).len()),
    ensures
        atom_at(ts, p) matches Ok((t2, q)) && q == p + term_tokens(t).len()
            && term_display(t2) == term_display(t),
    decreases t, 0nat,
{
    let m = term_tokens(t);
    let n = m.len() as int;
    assert(ts[p + 0]@ == m[0]);
    assert(!is_at(ts, p + n, TokenModel::Arrow));
    match t {
        Term::Var(x, None) => {
            assert(ts[p] is Var);
            assert(!is_at(ts, p + 1, TokenModel::Colon));
        },
        Term::Var(x, Some(ty)) => {
            assert(ts[p] is Var);
            assert(ts[p + 1]@ == m[1]);
            let mt = type_tokens(ty);
            assert(m.subrange(2, 2 + mt.len() as int) =~= mt);
            lemma_tokens_at_part(ts, p, m, 2, mt);
            lemma_parse_type(ts, p + 2, ty);
        },
        Term::Abs(x, None, body) => {
            let mb = parens(term_tokens(*body));
            assert(ts[p] is Lambda);
            assert(ts[p + 1]@ == m[1]);
            assert(ts[p + 1] is Var);
            assert(ts[p + 2]@ == m[2]);
            assert(m.subrange(3, 3 + mb.len() as int) =~= mb);
            lemma_tokens_at_part(ts, p, m, 3, mb);
            lemma_parse_paren(ts, p + 3, *body);
            lemma_term_of_atom(ts, p + 3);
            assert(abstraction_at(ts, p) matches Ok((t2, q)) && q == p + n && term_display(t2)
                == term_display(t));
        },
        Term::Abs(x, Some(ty), body) => {
            let mt = type_tokens(ty);
            let nt = mt.len() as int;
            let mb = parens(term_tokens(*body));
            assert(ts[p] is Lambda);
            assert(ts[p + 1]@ == m[1]);
            assert(ts[p + 1] is Var);
            assert(ts[p + 2]@ == m[2]);
            assert(ts[p + (3 + nt)]@ == m[3 + nt]);
            assert(m.subrange(3, 3 + nt) =~= mt);
            lemma_tokens_at_part(ts, p, m, 3, mt);
            lemma_parse_type(ts, p + 3, ty);
            assert(m.subrange(4 + nt, 4 + nt + mb.len() as int) =~= mb);
            lemma_tokens_at_part(ts, p, m, 4 + nt, mb);
            lemma_parse_paren(ts, p + 4 + nt, *body);
            lemma_term_of_atom(ts, p + 4 + nt);
            assert(abstraction_at(ts, p) matches Ok((t2, q)) && q == p + n && term_display(t2)
                == term_display(t));
        },
        Term::App(_, _) => {},
    }
}

/// Displaying a term, reading the tokens of that text back and displaying the result
/// gives the same text, for every term whose type names are not `Bool` or `Nat`
/// spelled as names.
pub proof fn lemma_parse_displayed_tokens(t: Term, ts: Seq<Token>)
    requires
        term_well_named(t),
        tokens_view(ts) == term_tokens(t),
    ensures
        term_at(ts, 0) matches Ok((t2, q)) && q == ts.len() && term_display(t2) == term_display(t),
{
    assert forall|k: int| 0 <= k < term_tokens(t).len() implies ts[0 + k]@
        == #[trigger] term_tokens(t)[k] by {
        assert(tokens_view(ts)[k] == ts[k]@);
    }
    lemma_parse_term(ts, 0, t);
}

// ---------------------------------------------------------------- characters

/// Characters that start a token of their own.
pub open spec fn is_punct(c: char) -> bool {
    c == 'λ' || c == '\\' || c == '.' || c == ':' || c == '-' || c == '(' || c == ')'
}

/// A maximal identifier as the lexer reads it: a letter that is no punctuation, then
/// letters and digits.
pub open spec fn is_ident(x: Seq<char>) -> bool {
    &&& x.len() > 0
    &&& !is_punct(x[0])
    &&& is_letter(x[0])
    &&& forall|k: int| 1 <= k < x.len() ==> is_letter_or_digit(#[trigger] x[k])
}

/// A name that the lexer reads as a variable.
pub open spec fn is_var_name(x: Seq<char>) -> bool {
    is_ident(x) && classify(x) == TokenModel::Var(x)
}

/// A name that the lexer reads as a type other than `Bool` and `Nat`.
pub open spec fn is_type_name(x: Seq<char>) -> bool {
    &&& is_ident(x)
    &&& classify(x) == TokenModel::Type(x)
    &&& x != seq!['B', 'o', 'o', 'l']
    &&& x != seq!['N', 'a', 't']
}

/// Every name in the type is a type name.
pub open spec fn type_lexable(ty: Type) -> bool
    decreases ty,
{
    match ty {
        Type::Named(n) => is_type_name(n@),
        Type::Bool => true,
        Type::Nat => true,
        Type::Arrow(a, b) => type_lexable(*a) && type_lexable(*b),
    }
}

pub open spec fn opt_type_lexable(ty: Option<Type>) -> bool {
    match ty {
        Some(ty) => type_lexable(ty),
        None => true,
    }
}

/// Every name in the term is a variable or type name, as the lexer would read it: the
/// terms that parsing produces.
pub open spec fn term_lexable(t: Term) -> bool
    decreases t,
{
    match t {
        Term::Var(x, ty) => is_var_name(x@) && opt_type_lexable(ty),
        Term::Abs(x, ty, body) => is_var_name(x@) && opt_type_lexable(ty) && term_lexable(*body),
        Term::App(l, r) => term_lexable(*l) && term_lexable(*r),
    }
}

proof fn lemma_lexable_well_named(t: Term)
    requires
        term_lexable(t),
    ensures
        term_well_named(t),
    decreases t,
{
    match t {
        Term::Var(_, Some(ty)) => lemma_type_lexable_well_named(ty),
        Term::Var(_, None) => {},
        Term::Abs(_, ty, body) => {
            if let Some(ty) = ty {
                lemma_type_lexable_well_named(ty);
            }
            lemma_lexable_well_named(*body);
        },
        Term::App(l, r) => {
            lemma_lexable_well_named(*l);
            lemma_lexable_well_named(*r);
        },
    }
}

proof fn lemma_type_lexable_well_named(ty: Type)
    requires
        type_lexable(ty),
    ensures
        type_well_named(ty),
    decreases ty,
{
    if let Type::Arrow(a, b) = ty {
        lemma_type_lexable_well_named(*a);
        lemma_type_lexable_well_named(*b);
    }
}

/// The characters of `s` from `i` on begin with `d`.
pub open spec fn chars_at(s: Seq<char>, i: int, d: Seq<char>) -> bool {
    0 <= i && i + d.len() <= s.len() && s.subrange(i, i + d.len()) == d
}

/// What may follow an identifier for the lexer to end it there.
pub open spec fn ident_stop(s: Seq<char>, j: int) -> bool {
    j == s.len() || (0 <= j < s.len() && !is_letter_or_digit(s[j]))
}

proof fn lemma_chars_at_part(s: Seq<char>, i: int, d: Seq<char>, off: int, e: Seq<char>)
    requires
        chars_at(s, i, d),
        0 <= off,
        off + e.len() <= d.len(),
        d.subrange(off, off + e.len()) == e,
    ensures
        chars_at(s, i + off, e),
{
    assert(s.subrange(i + off, i + off + e.len()) =~= e) by {
        assert forall|k: int| 0 <= k < e.len() implies s.subrange(i + off, i + off + e.len())[k]
            == e[k] by {
            assert(e[k] == d.subrange(off, off + e.len())[k]);
            assert(d[off + k] == s.subrange(i, i + d.len())[off + k]);
        }
    }
}

proof fn lemma_char_at(s: Seq<char>, i: int, d: Seq<char>, k: int)
    requires
        chars_at(s, i, d),
        0 <= k < d.len(),
    ensures
        s[i + k] == d[k],
{
    assert(s.subrange(i, i + d.len())[k] == s[i + k]);
}

proof fn lemma_cons_all_assoc(a: Seq<TokenModel>, b: Seq<TokenModel>, r: Result<Seq<TokenModel>, LexError>)
    ensures
        cons_all(a, cons_all(b, r)) == cons_all(a + b, r),
        cons(a[0], r) == cons_all(seq![a[0]], r),
{
    if let Ok(ts) = r {
        assert(a + (b + ts) =~= (a + b) + ts);
    }
}

proof fn lemma_ident_run(s: Seq<char>, i: int, e: int)
    requires
        0 <= i <= e <= s.len(),
        forall|k: int| i <= k < e ==> is_letter_or_digit(#[trigger] s[k]),
        ident_stop(s, e),
    ensures
        ident_end(s, i) == e,
    decreases e - i,
{
    if i < e {
        lemma_ident_run(s, i + 1, e);
    }
}

proof fn lemma_lex_name(s: Seq<char>, i: int, x: Seq<char>)
    requires
        is_ident(x),
        chars_at(s, i, x),
        ident_stop(s, i + x.len()),
    ensures
        lex_from(s, i) == cons(classify(x), lex_from(s, i + x.len())),
{
    lemma_char_at(s, i, x, 0);
    assert forall|k: int| i + 1 <= k < i + x.len() implies is_letter_or_digit(#[trigger] s[k]) by {
        lemma_char_at(s, i, x, k - i);
    }
    lemma_ident_run(s, i + 1, i + x.len());
    assert(s.subrange(i, i + x.len()) == x);
}

proof fn lemma_lex_punct(s: Seq<char>, i: int)
    requires
        0 <= i < s.len(),
        s[i] == '(' || s[i] == ')' || s[i] == '.' || s[i] == ':' || s[i] == 'λ',
    ensures
        s[i] == '(' ==> lex_from(s, i) == cons(TokenModel::LParen, lex_from(s, i + 1)),
        s[i] == ')' ==> lex_from(s, i) == cons(TokenModel::RParen, lex_from(s, i + 1)),
        s[i] == '.' ==> lex_from(s, i) == cons(TokenModel::Dot, lex_from(s, i + 1)),
        s[i] == ':' ==> lex_from(s, i) == cons(TokenModel::Colon, lex_from(s, i + 1)),
        s[i] == 'λ' ==> lex_from(s, i) == cons(TokenModel::Lambda, lex_from(s, i + 1)),
{
}

proof fn lemma_lex_space(s: Seq<char>, i: int)
    requires
        0 <= i < s.len(),
        s[i] == ' ',
    ensures
        lex_from(s, i) == lex_from(s, i + 1),
{
}

proof fn lemma_lex_arrow(s: Seq<char>, i: int)
    requires
        0 <= i,
        i + 1 < s.len(),
        s[i] == '-',
        s[i + 1] == '>',
    ensures
        lex_from(s, i) == cons(TokenModel::Arrow, lex_from(s, i + 2)),
{
}

proof fn lemma_keyword_ident()
    ensures
        is_ident(seq!['B', 'o', 'o', 'l']),
        is_ident(seq!['N', 'a', 't']),
        classify(seq!['B', 'o', 'o', 'l']) == TokenModel::Type(seq!['B', 'o', 'o', 'l']),
        classify(seq!['N', 'a', 't']) == TokenModel::Type(seq!['N', 'a', 't']),
{
    let b = seq!['B', 'o', 'o', 'l'];
    let n = seq!['N', 'a', 't'];
    assert forall|k: int| 1 <= k < b.len() implies is_letter_or_digit(#[trigger] b[k]) by {}
    assert forall|k: int| 1 <= k < n.len() implies is_letter_or_digit(#[trigger] n[k]) by {}
}

proof fn lemma_lex_type(s: Seq<char>, i: int, ty: Type)
    requires
        type_lexable(ty),
        chars_at(s, i, type_display(ty)),
        ident_stop(s, i + type_display(ty).len()),
    ensures
        lex_from(s, i) == cons_all(type_tokens(ty), lex_from(s, i + type_display(ty).len())),
    decreases ty, 1nat,
{
    let d = type_display(ty);
    let e = i + d.len();
    match ty {
        Type::Arrow(_, _) => lemma_lex_arrow_type(s, i, ty),
        _ => {
            lemma_keyword_ident();
            lemma_lex_name(s, i, d);
            lemma_cons_all_assoc(type_tokens(ty), seq![], lex_from(s, e));
        },
    }
}

proof fn lemma_lex_arrow_type(s: Seq<char>, i: int, ty: Type)
    requires
        ty is Arrow,
        type_lexable(ty),
        chars_at(s, i, type_display(ty)),
        ident_stop(s, i + type_display(ty).len()),
    ensures
        lex_from(s, i) == cons_all(type_tokens(ty), lex_from(s, i + type_display(ty).len())),
    decreases ty, 0nat,
{
    let d = type_display(ty);
    let e = i + d.len();
    if let Type::Arrow(a, b) = ty {
            let da = type_display(*a);
            let db = type_display(*b);
            let na = da.len() as int;
            let nb = db.len() as int;
            assert(d[1 + na] == ' ');
            assert(d[2 + na] == '-');
            assert(d[3 + na] == '>');
            assert(d[4 + na] == ' ');
            assert(d[5 + na + nb] == ')');
            lemma_char_at(s, i, d, 0);
            lemma_char_at(s, i, d, 1 + na);
            lemma_char_at(s, i, d, 2 + na);
            lemma_char_at(s, i, d, 3 + na);
            lemma_char_at(s, i, d, 4 + na);
            lemma_char_at(s, i, d, 5 + na + nb);
            assert(d.subrange(1, 1 + na) =~= da);
            lemma_chars_at_part(s, i, d, 1, da);
            lemma_lex_type(s, i + 1, *a);
            assert(d.subrange(5 + na, 5 + na + nb) =~= db);
            lemma_chars_at_part(s, i, d, 5 + na, db);
            lemma_lex_type(s, i + 5 + na, *b);
            let r_end = lex_from(s, e);
            lemma_lex_punct(s, i + 5 + na + nb);
            lemma_lex_space(s, i + 4 + na);
            lemma_lex_arrow(s, i + 2 + na);
            lemma_lex_space(s, i + 1 + na);
            lemma_lex_punct(s, i);
            let ta = type_tokens(*a);
            let tb = type_tokens(*b);
            let rp = seq![TokenModel::RParen];
            let ar = seq![TokenModel::Arrow];
            let lp = seq![TokenModel::LParen];
            lemma_cons_all_assoc(rp, seq![], r_end);
            lemma_cons_all_assoc(tb, rp, r_end);
            lemma_cons_all_assoc(ar, tb + rp, r_end);
            lemma_cons_all_assoc(ta, ar + (tb + rp), r_end);
            lemma_cons_all_assoc(lp, ta + (ar + (tb + rp)), r_end);
            assert(type_tokens(ty) =~= lp + (ta + (ar + (tb + rp))));
    }
}

/// What may follow a displayed term: the end of the text or a closing parenthesis.
pub open spec fn term_stop(s: Seq<char>, j: int) -> bool {
    j == s.len() || (0 <= j < s.len() && s[j] == ')')
}

proof fn lemma_lex_term(s: Seq<char>, i: int, t: Term)
    requires
        term_lexable(t),
        chars_at(s, i, term_display(t)),
        term_stop(s, i + term_display(t).len()),
    ensures
        lex_from(s, i) == cons_all(term_tokens(t), lex_from(s, i + term_display(t).len())),
    decreases t, 1nat,
{
    match t {
        Term::Var(_, _) => lemma_lex_var(s, i, t),
        Term::Abs(_, _, _) => lemma_lex_abs(s, i, t),
        Term::App(_, _) => lemma_lex_app(s, i, t),
    }
}

proof fn lemma_lex_var(s: Seq<char>, i: int, t: Term)
    requires
        t is Var,
        term_lexable(t),
        chars_at(s, i, term_display(t)),
        term_stop(s, i + term_display(t).len()),
    ensures
        lex_from(s, i) == cons_all(term_tokens(t), lex_from(s, i + term_display(t).len())),
    decreases t, 0nat,
{
    let d = term_display(t);
    let e = i + d.len();
    let r_end = lex_from(s, e);
    if let Term::Var(x, ann) = t {
        let nx = x@.len() as int;
        assert(d.subrange(0, nx) =~= x@);
        lemma_chars_at_part(s, i, d, 0, x@);
        match ann {
            None => {
                lemma_lex_name(s, i, x@);
                lemma_cons_all_assoc(term_tokens(t), seq![], r_end);
            },
            Some(ty) => {
                let dt = type_display(ty);
                assert(d[nx] == ':');
                lemma_char_at(s, i, d, nx);
                lemma_lex_name(s, i, x@);
                lemma_lex_punct(s, i + nx);
                assert(d.subrange(nx + 1, nx + 1 + dt.len()) =~= dt);
                lemma_chars_at_part(s, i, d, nx + 1, dt);
                lemma_lex_type(s, i + nx + 1, ty);
                let tt = type_tokens(ty);
                lemma_cons_all_assoc(seq![TokenModel::Colon], tt, r_end);
                lemma_cons_all_assoc(seq![TokenModel::Var(x@)], seq![TokenModel::Colon] + tt, r_end);
                assert(term_tokens(t) =~= seq![TokenModel::Var(x@)] + (seq![TokenModel::Colon] + tt));
            },
        }
    }
}

proof fn lemma_lex_abs(s: Seq<char>, i: int, t: Term)
    requires
        t is Abs,
        term_lexable(t),
        chars_at(s, i, term_display(t)),
        term_stop(s, i + term_display(t).len()),
    ensures
        lex_from(s, i) == cons_all(term_tokens(t), lex_from(s, i + term_display(t).len())),
    decreases t, 0nat,
{
    let d = term_display(t);
    let e = i + d.len();
    let r_end = lex_from(s, e);
    if let Term::Abs(x, ann, body) = t {
        let nx = x@.len() as int;
        let db = term_display(*body);
        let nb = db.len() as int;
        let tb = term_tokens(*body);
        let rp = seq![TokenModel::RParen];
        assert(d[0] == 'λ');
        lemma_char_at(s, i, d, 0);
        lemma_lex_punct(s, i);
        assert(d.subrange(1, 1 + nx) =~= x@);
        lemma_chars_at_part(s, i, d, 1, x@);
        // the annotation, if any, ends at `k`, where the dot stands
        let k = match ann {
            Some(ty) => 2 + nx + type_display(ty).len(),
            None => 1 + nx,
        };
        assert(d[k] == '.');
        assert(d[k + 1] == '(');
        assert(d[k + 2 + nb] == ')');
        assert(d.len() == k + 3 + nb);
        lemma_char_at(s, i, d, k);
        lemma_char_at(s, i, d, k + 1);
        lemma_char_at(s, i, d, k + 2 + nb);
        lemma_lex_punct(s, i + k);
        lemma_lex_punct(s, i + k + 1);
        lemma_lex_punct(s, i + k + 2 + nb);
        assert(d.subrange(k + 2, k + 2 + nb) =~= db);
        lemma_chars_at_part(s, i, d, k + 2, db);
        lemma_lex_term(s, i + k + 2, *body);
        lemma_cons_all_assoc(rp, seq![], r_end);
        lemma_cons_all_assoc(tb, rp, r_end);
        lemma_cons_all_assoc(seq![TokenModel::LParen], tb + rp, r_end);
        lemma_cons_all_assoc(seq![TokenModel::Dot], parens(tb), r_end);
        assert(parens(tb) =~= seq![TokenModel::LParen] + (tb + rp));
        let tail = seq![TokenModel::Dot] + parens(tb);
        match ann {
            Some(ty) => {
                let dt = type_display(ty);
                let tt = type_tokens(ty);
                assert(d[1 + nx] == ':');
                lemma_char_at(s, i, d, 1 + nx);
                lemma_lex_name(s, i + 1, x@);
                lemma_lex_punct(s, i + 1 + nx);
                assert(d.subrange(2 + nx, 2 + nx + dt.len()) =~= dt);
                lemma_chars_at_part(s, i, d, 2 + nx, dt);
                lemma_lex_type(s, i + 2 + nx, ty);
                lemma_cons_all_assoc(tt, tail, r_end);
                lemma_cons_all_assoc(seq![TokenModel::Colon], tt + tail, r_end);
                lemma_cons_all_assoc(seq![TokenModel::Var(x@)], seq![TokenModel::Colon] + (tt + tail), r_end);
                lemma_cons_all_assoc(
                    seq![TokenModel::Lambda],
                    seq![TokenModel::Var(x@)] + (seq![TokenModel::Colon] + (tt + tail)),
                    r_end,
                );
                assert(term_tokens(t) =~= seq![TokenModel::Lambda] + (seq![TokenModel::Var(x@)]
                    + (seq![TokenModel::Colon] + (tt + tail))));
            },
            None => {
                lemma_lex_name(s, i + 1, x@);
                lemma_cons_all_assoc(seq![TokenModel::Var(x@)], tail, r_end);
                lemma_cons_all_assoc(seq![TokenModel::Lambda], seq![TokenModel::Var(x@)] + tail, r_end);
                assert(term_tokens(t) =~= seq![TokenModel::Lambda] + (seq![TokenModel::Var(x@)] + tail));
            },
        }
    }
}

proof fn lemma_lex_app(s: Seq<char>, i: int, t: Term)
    requires
        t is App,
        term_lexable(t),
        chars_at(s, i, term_display(t)),
        term_stop(s, i + term_display(t).len()),
    ensures
        lex_from(s, i) == cons_all(term_tokens(t), lex_from(s, i + term_display(t).len())),
    decreases t, 0nat,
{
    let d = term_display(t);
    let e = i + d.len();
    let r_end = lex_from(s, e);
    if let Term::App(l, r) = t {
        let dl = term_display(*l);
        let dr = term_display(*r);
        let nl = dl.len() as int;
        let nr = dr.len() as int;
        let tl = term_tokens(*l);
        let tr = term_tokens(*r);
        let lp = seq![TokenModel::LParen];
        let rp = seq![TokenModel::RParen];
        assert(d[0] == '(');
        assert(d[1 + nl] == ')');
        assert(d[2 + nl] == ' ');
        assert(d[3 + nl] == '(');
        assert(d[4 + nl + nr] == ')');
        lemma_char_at(s, i, d, 0);
        lemma_char_at(s, i, d, 1 + nl);
        lemma_char_at(s, i, d, 2 + nl);
        lemma_char_at(s, i, d, 3 + nl);
        lemma_char_at(s, i, d, 4 + nl + nr);
        lemma_lex_punct(s, i);
        lemma_lex_punct(s, i + 1 + nl);
        lemma_lex_space(s, i + 2 + nl);
        lemma_lex_punct(s, i + 3 + nl);
        lemma_lex_punct(s, i + 4 + nl + nr);
        assert(d.subrange(1, 1 + nl) =~= dl);
        lemma_chars_at_part(s, i, d, 1, dl);
        lemma_lex_term(s, i + 1, *l);
        assert(d.subrange(4 + nl, 4 + nl + nr) =~= dr);
        lemma_chars_at_part(s, i, d, 4 + nl, dr);
        lemma_lex_term(s, i + 4 + nl, *r);
        lemma_cons_all_assoc(rp, seq![], r_end);
        lemma_cons_all_assoc(tr, rp, r_end);
        lemma_cons_all_assoc(lp, tr + rp, r_end);
        lemma_cons_all_assoc(rp, lp + (tr + rp), r_end);
        lemma_cons_all_assoc(tl, rp + (lp + (tr + rp)), r_end);
        lemma_cons_all_assoc(lp, tl + (rp + (lp + (tr + rp))), r_end);
        assert(term_tokens(t) =~= lp + (tl + (rp + (lp + (tr + rp)))));
    }
}

/// A term whose names are read back as they stand displays as text whose tokens are
/// exactly the term's tokens.
pub proof fn lemma_lex_displayed(t: Term)
    requires
        term_lexable(t),
    ensures
        lex(term_display(t)) == Ok::<Seq<TokenModel>, LexError>(term_tokens(t)),
{
    let d = term_display(t);
    assert(d.subrange(0, d.len() as int) =~= d);
    lemma_lex_term(d, 0, t);
    assert(term_tokens(t) + Seq::<TokenModel>::empty() =~= term_tokens(t));
}

// ---------------------------------------------------------------- what lexing yields

/// A token as the lexer produces it: identifiers are maximal and classified.
pub open spec fn valid_token(m: TokenModel) -> bool {
    match m {
        TokenModel::Var(x) => is_var_name(x),
        TokenModel::Type(x) => is_ident(x) && classify(x) == TokenModel::Type(x),
        _ => true,
    }
}

proof fn lemma_ident_end_letters(s: Seq<char>, i: int)
    requires
        0 <= i <= s.len(),
    ensures
        i <= ident_end(s, i) <= s.len(),
        forall|j: int| i <= j < ident_end(s, i) ==> is_letter_or_digit(#[trigger] s[j]),
    decreases s.len() - i,
{
    if i < s.len() && is_letter_or_digit(s[i]) {
        lemma_ident_end_letters(s, i + 1);
    }
}

proof fn lemma_lex_valid(s: Seq<char>, i: int)
    requires
        0 <= i <= s.len(),
    ensures
        lex_from(s, i) matches Ok(v) ==> forall|j: int| 0 <= j < v.len() ==> valid_token(
            #[trigger] v[j],
        ),
    decreases s.len() - i,
{
    if i < s.len() {
        let c = s[i];
        if c == '-' {
            if i + 1 < s.len() && s[i + 1] == '>' {
                lemma_lex_valid(s, i + 2);
                lemma_cons_valid(TokenModel::Arrow, lex_from(s, i + 2));
            }
        } else if is_punct(c) {
            lemma_lex_valid(s, i + 1);
            let t = if c == '(' {
                TokenModel::LParen
            } else if c == ')' {
                TokenModel::RParen
            } else if c == '.' {
                TokenModel::Dot
            } else if c == ':' {
                TokenModel::Colon
            } else {
                TokenModel::Lambda
            };
            lemma_cons_valid(t, lex_from(s, i + 1));
        } else if is_letter(c) {
            lemma_ident_end_letters(s, i + 1);
            let k = ident_end(s, i + 1);
            let x = s.subrange(i, k);
            assert forall|j: int| 1 <= j < x.len() implies is_letter_or_digit(#[trigger] x[j]) by {
                assert(x[j] == s[i + j]);
            }
            lemma_lex_valid(s, k);
            lemma_cons_valid(classify(x), lex_from(s, k));
        } else if crate::lexer::is_space(c) {
            lemma_lex_valid(s, i + 1);
        }
    }
}

proof fn lemma_cons_valid(t: TokenModel, r: Result<Seq<TokenModel>, LexError>)
    requires
        valid_token(t),
        r matches Ok(v) ==> forall|j: int| 0 <= j < v.len() ==> valid_token(#[trigger] v[j]),
    ensures
        cons(t, r) matches Ok(v) ==> forall|j: int| 0 <= j < v.len() ==> valid_token(#[trigger] v[j]),
{
    if let Ok(v) = r {
        assert forall|j: int| 0 <= j < (seq![t] + v).len() implies valid_token(
            #[trigger] (seq![t] + v)[j],
        ) by {
            if j > 0 {
                assert((seq![t] + v)[j] == v[j - 1]);
            }
        }
    }
}

/// Every token of `ts` is as the lexer produces it.
pub open spec fn all_valid(ts: Seq<Token>) -> bool {
    forall|j: int| 0 <= j < ts.len() ==> valid_token(#[trigger] ts[j]@)
}

proof fn lemma_simple_type_lexable(ts: Seq<Token>, p: int)
    requires
        all_valid(ts),
    ensures
        simple_type_at(ts, p) matches Ok((ty, q)) ==> type_lexable(ty) && p < q <= ts.len(),
    decreases ts.len() - p, 0nat,
{
    if 0 <= p < ts.len() {
        assert(valid_token(ts[p]@));
        match ts[p] {
            Token::LParen => {
                lemma_type_lexable(ts, p + 1);
            },
            _ => {},
        }
    }
}

proof fn lemma_type_lexable(ts: Seq<Token>, p: int)
    requires
        all_valid(ts),
    ensures
        type_at(ts, p) matches Ok((ty, q)) ==> type_lexable(ty) && p < q <= ts.len(),
    decreases ts.len() - p, 1nat,
{
    if 0 <= p <= ts.len() {
        lemma_simple_type_lexable(ts, p);
        if let Ok((a, q)) = simple_type_at(ts, p) {
            if is_at(ts, q, TokenModel::Arrow) && p < q {
                lemma_type_lexable(ts, q + 1);
            }
        }
    }
}

proof fn lemma_term_lexable(ts: Seq<Token>, p: int)
    requires
        all_valid(ts),
    ensures
        term_at(ts, p) matches Ok((t, q)) ==> term_lexable(t) && p < q <= ts.len(),
    decreases ts.len() - p, 3nat,
{
    if 0 <= p <= ts.len() {
        lemma_atom_lexable(ts, p);
        if let Ok((t, q)) = atom_at(ts, p) {
            if p < q <= ts.len() {
                lemma_app_tail_lexable(ts, q, t);
            }
        }
    }
}

proof fn lemma_app_tail_lexable(ts: Seq<Token>, p: int, acc: Term)
    requires
        all_valid(ts),
        term_lexable(acc),
        0 <= p <= ts.len(),
    ensures
        app_tail(ts, p, acc) matches Ok((t, q)) ==> term_lexable(t) && p <= q <= ts.len(),
    decreases ts.len() - p, 2nat,
{
    if starts_atom(ts, p) {
        lemma_atom_lexable(ts, p);
        if let Ok((a, q)) = atom_at(ts, p) {
            if p < q <= ts.len() {
                lemma_app_tail_lexable(ts, q, Term::App(Box::new(acc), Box::new(a)));
            }
        }
    }
}

proof fn lemma_atom_lexable(ts: Seq<Token>, p: int)
    requires
        all_valid(ts),
    ensures
        atom_at(ts, p) matches Ok((t, q)) ==> term_lexable(t) && p < q <= ts.len(),
    decreases ts.len() - p, 1nat,
{
    if 0 <= p < ts.len() {
        assert(valid_token(ts[p]@));
        match ts[p] {
            Token::Var(_) => {
                if is_at(ts, p + 1, TokenModel::Colon) {
                    lemma_type_lexable(ts, p + 2);
                }
            },
            Token::Lambda => lemma_abstraction_lexable(ts, p),
            Token::LParen => lemma_term_lexable(ts, p + 1),
            _ => {},
        }
    }
}

proof fn lemma_abstraction_lexable(ts: Seq<Token>, p: int)
    requires
        all_valid(ts),
    ensures
        abstraction_at(ts, p) matches Ok((t, q)) ==> term_lexable(t) && p < q <= ts.len(),
    decreases ts.len() - p, 0nat,
{
    if 0 <= p && p + 1 < ts.len() {
        assert(valid_token(ts[p + 1]@));
        if is_at(ts, p + 2, TokenModel::Colon) {
            lemma_type_lexable(ts, p + 3);
            if let Ok((_, q)) = type_at(ts, p + 3) {
                if p < q && is_at(ts, q, TokenModel::Dot) {
                    lemma_term_lexable(ts, q + 1);
                }
            }
        } else if is_at(ts, p + 2, TokenModel::Dot) {
            lemma_term_lexable(ts, p + 3);
        }
    }
}

/// Parsing then displaying is idempotent. When a text lexes to the tokens `ts` and a
/// term `t` parses from them, the display of `t` lexes again, and the tokens it lexes to
/// parse to a term that displays exactly as `t` does.
pub proof fn lemma_display_parse_idempotent(s: Seq<char>, ts: Seq<Token>, t: Term, q: int)
    requires
        lex(s) == Ok::<Seq<TokenModel>, LexError>(tokens_view(ts)),
        term_at(ts, 0) == Ok::<(Term, int), crate::parser::ParseError>((t, q)),
    ensures
        lex(term_display(t)) is Ok,
        forall|ts2: Seq<Token>|
            #[trigger] tokens_view(ts2) == lex(term_display(t))->Ok_0 ==> (term_at(ts2, 0) matches Ok(
                (t2, _),
            ) && term_display(t2) == term_display(t)),
{
    lemma_lex_valid(s, 0);
    assert forall|j: int| 0 <= j < ts.len() implies valid_token(#[trigger] ts[j]@) by {
        assert(tokens_view(ts)[j] == ts[j]@);
    }
    lemma_term_lexable(ts, 0);
    lemma_lexable_well_named(t);
    lemma_lex_displayed(t);
    assert forall|ts2: Seq<Token>|
        #[trigger] tokens_view(ts2) == lex(term_display(t))->Ok_0 implies (term_at(ts2, 0) matches Ok(
            (t2, _),
        ) && term_display(t2) == term_display(t)) by {
        lemma_parse_displayed_tokens(t, ts2);
    }
}

} // verus!
