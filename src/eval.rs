use vstd::prelude::*;
use crate::parser::{Term, copy_term};

verus! {

/// `t` with every free occurrence of the variable `var` replaced by `value`.
/// An abstraction whose parameter is `var` shadows it: substitution stops there.
/// Nothing is renamed, so a free variable of `value` can be captured by a binder of `t`.
pub open spec fn subst(var: Seq<char>, value: Term, t: Term) -> Term
    decreases t,
{
    match t {
        Term::Var(name, _) => if name@ == var {
            value
        } else {
            t
        },
        Term::Abs(param, ty, body) => if param@ == var {
            t
        } else {
            Term::Abs(param, ty, Box::new(subst(var, value, *body)))
        },
        Term::App(l, r) => Term::App(
            Box::new(subst(var, value, *l)),
            Box::new(subst(var, value, *r)),
        ),
    }
}

/// Reduction to normal form with at most `fuel` levels of nested evaluation:
/// both sides of an application are reduced, then a redex is contracted and its
/// result reduced; bodies of abstractions are reduced too. `None` when the fuel runs out.
pub open spec fn eval_fuel(t: Term, fuel: nat) -> Option<Term>
    decreases fuel,
{
    if fuel == 0 {
        None
    } else {
        match t {
            Term::Var(_, _) => Some(t),
            Term::Abs(param, ty, body) => match eval_fuel(*body, (fuel - 1) as nat) {
                Some(b) => Some(Term::Abs(param, ty, Box::new(b))),
                None => None,
            },
            Term::App(l, r) => match eval_fuel(*l, (fuel - 1) as nat) {
                Some(lv) => match eval_fuel(*r, (fuel - 1) as nat) {
                    Some(rv) => match lv {
                        Term::Abs(param, _, body) => eval_fuel(
                            subst(param@, rv, *body),
                            (fuel - 1) as nat,
                        ),
                        _ => Some(Term::App(Box::new(lv), Box::new(rv))),
                    },
                    None => None,
                },
                None => None,
            },
        }
    }
}

/// A term with no redex anywhere, under binders included.
pub open spec fn is_normal(t: Term) -> bool
    decreases t,
{
    match t {
        Term::Var(_, _) => true,
        Term::Abs(_, _, body) => is_normal(*body),
        Term::App(l, r) => !(*l is Abs) && is_normal(*l) && is_normal(*r),
    }
}

/// `r` is `t` as substitution of `var` may leave it: every abstraction that binds
/// `var` stands unchanged, every other node keeps its shape, and only occurrences
/// of `var` itself outside such binders may differ.
pub open spec fn kept_where_shadowed(var: Seq<char>, t: Term, r: Term) -> bool
    decreases t,
{
    match t {
        Term::Var(name, _) => name@ == var || r == t,
        Term::Abs(param, ty, body) => if param@ == var {
            r == t
        } else {
            r matches Term::Abs(p2, ty2, b2) && p2 == param && ty2 == ty
                && kept_where_shadowed(var, *body, *b2)
        },
        Term::App(l, a) => r matches Term::App(l2, a2) && kept_where_shadowed(var, *l, *l2)
            && kept_where_shadowed(var, *a, *a2),
    }
}

/// Substitution leaves every abstraction that binds the substituted variable, and
/// everything beneath it, exactly as it was; elsewhere only occurrences of the
/// variable change.
pub proof fn lemma_substitute_respects_shadowing(var: Seq<char>, value: Term, t: Term)
    ensures
        kept_where_shadowed(var, t, subst(var, value, t)),
    decreases t,
{
    match t {
        Term::Var(_, _) => {},
        Term::Abs(param, ty, body) => {
            if param@ != var {
                lemma_substitute_respects_shadowing(var, value, *body);
            }
        },
        Term::App(l, a) => {
            lemma_substitute_respects_shadowing(var, value, *l);
            lemma_substitute_respects_shadowing(var, value, *a);
        },
    }
}

/// Whatever evaluation returns is in normal form.
pub proof fn lemma_eval_normal(t: Term, fuel: nat)
    ensures
        eval_fuel(t, fuel) matches Some(v) ==> is_normal(v),
    decreases fuel, t,
{
    if fuel > 0 {
        let f = (fuel - 1) as nat;
        match t {
            Term::Var(_, _) => {},
            Term::Abs(_, _, body) => {
                lemma_eval_normal(*body, f);
            },
            Term::App(l, r) => {
                lemma_eval_normal(*l, f);
                lemma_eval_normal(*r, f);
                if let Some(Term::Abs(param, _, body)) = eval_fuel(*l, f) {
                    if let Some(rv) = eval_fuel(*r, f) {
                        lemma_eval_normal(subst(param@, rv, *body), f);
                    }
                }
            },
        }
    }
}

/// More fuel never changes a result that was reached: evaluation does not depend on
/// the fuel beyond whether it suffices.
pub proof fn lemma_eval_fuel_monotone(t: Term, fuel: nat, more: nat)
    requires
        fuel <= more,
        eval_fuel(t, fuel) is Some,
    ensures
        eval_fuel(t, more) == eval_fuel(t, fuel),
    decreases fuel, t,
{
    let f = (fuel - 1) as nat;
    let m = (more - 1) as nat;
    match t {
        Term::Var(_, _) => {},
        Term::Abs(_, _, body) => {
            lemma_eval_fuel_monotone(*body, f, m);
        },
        Term::App(l, r) => {
            lemma_eval_fuel_monotone(*l, f, m);
            lemma_eval_fuel_monotone(*r, f, m);
            if let Some(Term::Abs(param, _, body)) = eval_fuel(*l, f) {
                if let Some(rv) = eval_fuel(*r, f) {
                    lemma_eval_fuel_monotone(subst(param@, rv, *body), f, m);
                }
            }
        },
    }
}

fn substitute_name(var: &String, value: &Term, term: Term) -> (r: Term)
    ensures
        r == subst(var@, *value, term),
    decreases term,
{
    match term {
        Term::Var(name, ty) => {
            if name == *var {
                copy_term(value)
            } else {
                Term::Var(name, ty)
            }
        },
        Term::Abs(param, ty, body) => {
            if param == *var {
                Term::Abs(param, ty, body)
            } else {
                let new_body = substitute_name(var, value, *body);
                Term::Abs(param, ty, Box::new(new_body))
            }
        },
        Term::App(left, right) => {
            let new_left = substitute_name(var, value, *left);
            let new_right = substitute_name(var, value, *right);
            Term::App(Box::new(new_left), Box::new(new_right))
        },
    }
}

/// Replaces the free occurrences of `var` in `term` by `value` (see `subst`).
pub fn substitute(var: &str, value: &Term, term: Term) -> (r: Term)
    ensures
        r == subst(var@, *value, term),
{
    let var = var.to_owned();
    substitute_name(&var, value, term)
}

/// Reduces `term` to normal form within `fuel` levels of nested evaluation;
/// `None` when the fuel runs out.
pub fn eval_with_fuel(term: Term, fuel: u64) -> (r: Option<Term>)
    ensures
        r == eval_fuel(term, fuel as nat),
        r matches Some(v) ==> is_normal(v),
    decreases fuel,
{
    proof {
        lemma_eval_normal(term, fuel as nat);
    }
    if fuel == 0 {
        return None;
    }
    match term {
        Term::App(left, right) => {
            let left = match eval_with_fuel(*left, fuel - 1) {
                Some(v) => v,
                None => return None,
            };
            let right = match eval_with_fuel(*right, fuel - 1) {
                Some(v) => v,
                None => return None,
            };
            match left {
                Term::Abs(param, _ty, body) => eval_with_fuel(
                    substitute_name(&param, &right, *body),
                    fuel - 1,
                ),
                _ => Some(Term::App(Box::new(left), Box::new(right))),
            }
        },
        Term::Abs(param, ty, body) => match eval_with_fuel(*body, fuel - 1) {
            Some(b) => Some(Term::Abs(param, ty, Box::new(b))),
            None => None,
        },
        Term::Var(_, _) => Some(term),
    }
}

/// Reduces `term` to normal form. The nesting of evaluation is bounded only by the
/// largest `u64`, so in practice a divergent term exhausts the stack first; a
/// variable is returned as it is.
pub fn eval(term: Term) -> (r: Option<Term>)
    ensures
        r == eval_fuel(term, u64::MAX as nat),
        r matches Some(v) ==> is_normal(v),
        term is Var ==> r == Some(term),
{
    eval_with_fuel(term, u64::MAX)
}

} // verus!
