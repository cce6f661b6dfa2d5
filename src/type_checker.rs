use vstd::prelude::*;
use crate::parser::{Term, Type, copy_type, type_eq, types_equal};

verus! {

/// Why a term has no type.
#[derive(Debug, PartialEq)]
pub enum TypeError {
    /// A variable that the context does not bind and that carries no annotation.
    UnboundVariable(String),
    /// An abstraction without a parameter type.
    MissingAnnotation,
    /// An argument whose type is not the parameter type of the function.
    ArgumentMismatch { expected: Type, found: Type },
    /// An application whose function side has a type that is not an arrow.
    NotAFunction(Type),
}

/// The map of a list of bindings, a later binding of a name replacing an earlier one.
pub open spec fn bindings_map(s: Seq<(String, Type)>) -> Map<Seq<char>, Type>
    decreases s.len(),
{
    if s.len() == 0 {
        Map::empty()
    } else {
        bindings_map(s.drop_last()).insert(s.last().0@, s.last().1)
    }
}

/// A typing context: a map from variable names to types.
pub struct Context {
    entries: Vec<(String, Type)>,
}

impl View for Context {
    type V = Map<Seq<char>, Type>;

    closed spec fn view(&self) -> Map<Seq<char>, Type> {
        bindings_map(self.entries@)
    }
}

proof fn lemma_lookup_prefix(s: Seq<(String, Type)>, i: int, k: Seq<char>)
    requires
        0 <= i <= s.len(),
        forall|j: int| i <= j < s.len() ==> (#[trigger] s[j]).0@ != k,
    ensures
        bindings_map(s).contains_key(k) == bindings_map(s.take(i)).contains_key(k),
        bindings_map(s).contains_key(k) ==> bindings_map(s)[k] == bindings_map(s.take(i))[k],
    decreases s.len(),
{
    if i == s.len() {
        assert(s.take(i) =~= s);
    } else {
        let d = s.drop_last();
        assert(d.take(i) =~= s.take(i));
        assert forall|j: int| i <= j < d.len() implies (#[trigger] d[j]).0@ != k by {
            assert(d[j] == s[j]);
        }
        lemma_lookup_prefix(d, i, k);
    }
}

impl Context {
    /// The empty context.
    pub fn new() -> (r: Self)
        ensures
            r@ == Map::<Seq<char>, Type>::empty(),
    {
        Context { entries: Vec::new() }
    }

    /// Binds `name` to `ty`, replacing a binding of the same name.
    pub fn insert(&mut self, name: String, ty: Type)
        ensures
            final(self)@ == old(self)@.insert(name@, ty),
    {
        let ghost old_entries = self.entries@;
        self.entries.push((name, ty));
        assert(self.entries@.drop_last() =~= old_entries);
    }

    /// The type bound to `name`, if any.
    pub fn get(&self, name: &String) -> (r: Option<&Type>)
        ensures
            match r {
                Some(t) => self@.contains_key(name@) && self@[name@] == *t,
                None => !self@.contains_key(name@),
            },
    {
        let mut i: usize = self.entries.len();
        while i > 0
            invariant
                i <= self.entries.len(),
                forall|j: int| i <= j < self.entries@.len() ==> (#[trigger] self.entries@[j]).0@
                    != name@,
            decreases i,
        {
            if self.entries[i - 1].0 == *name {
                proof {
                    let s = self.entries@;
                    lemma_lookup_prefix(s, i as int, name@);
                    assert(s.take(i as int).drop_last() =~= s.take(i - 1));
                }
                return Some(&self.entries[i - 1].1);
            }
            i = i - 1;
        }
        proof {
            lemma_lookup_prefix(self.entries@, 0, name@);
        }
        None
    }

    /// A context with the same bindings.
    pub fn copy(&self) -> (r: Self)
        ensures
            r@ == self@,
    {
        let mut entries: Vec<(String, Type)> = Vec::new();
        let mut i: usize = 0;
        while i < self.entries.len()
            invariant
                i <= self.entries.len(),
                entries@ == self.entries@.take(i as int),
            decreases self.entries.len() - i,
        {
            let name = self.entries[i].0.clone();
            let ty = copy_type(&self.entries[i].1);
            entries.push((name, ty));
            i = i + 1;
            assert(entries@ =~= self.entries@.take(i as int));
        }
        assert(entries@ =~= self.entries@);
        Context { entries }
    }
}

/// The typing judgment: `Ok(ty)` when `ctx ⊢ t : ty`, else the first error met.
/// A binding in the context wins over a variable's own annotation.
pub open spec fn typing(t: Term, ctx: Map<Seq<char>, Type>) -> Result<Type, TypeError>
    decreases t,
{
    match t {
        Term::Var(name, ann) => if ctx.contains_key(name@) {
            Ok(ctx[name@])
        } else {
            match ann {
                Some(ty) => Ok(ty),
                None => Err(TypeError::UnboundVariable(name)),
            }
        },
        Term::Abs(param, Some(pt), body) => match typing(*body, ctx.insert(param@, pt)) {
            Ok(bt) => Ok(Type::Arrow(Box::new(pt), Box::new(bt))),
            Err(e) => Err(e),
        },
        Term::Abs(_, None, _) => Err(TypeError::MissingAnnotation),
        Term::App(f, a) => match typing(*f, ctx) {
            Ok(ft) => match typing(*a, ctx) {
                Ok(at) => match ft {
                    Type::Arrow(pt, rt) => if type_eq(*pt, at) {
                        Ok(*rt)
                    } else {
                        Err(TypeError::ArgumentMismatch { expected: *pt, found: at })
                    },
                    _ => Err(TypeError::NotAFunction(ft)),
                },
                Err(e) => Err(e),
            },
            Err(e) => Err(e),
        },
    }
}

/// Computes the type of `term` under `ctx` (see `typing`); `ctx` itself is left as it is.
pub fn type_check(term: &Term, ctx: &Context) -> (r: Result<Type, TypeError>)
    ensures
        r == typing(*term, ctx@),
    decreases term,
{
    match term {
        Term::Var(name, maybe_type) => {
            if let Some(ty) = ctx.get(name) {
                Ok(copy_type(ty))
            } else if let Some(ty) = maybe_type {
                Ok(copy_type(ty))
            } else {
                Err(TypeError::UnboundVariable(name.clone()))
            }
        },
        Term::Abs(param, Some(param_type), body) => {
            let mut new_ctx = ctx.copy();
            new_ctx.insert(param.clone(), copy_type(param_type));
            match type_check(body, &new_ctx) {
                Ok(body_type) => Ok(Type::Arrow(Box::new(copy_type(param_type)), Box::new(body_type))),
                Err(e) => Err(e),
            }
        },
        Term::Abs(_, None, _) => Err(TypeError::MissingAnnotation),
        Term::App(t1, t2) => {
            let t1_type = match type_check(t1, ctx) {
                Ok(ty) => ty,
                Err(e) => return Err(e),
            };
            let t2_type = match type_check(t2, ctx) {
                Ok(ty) => ty,
                Err(e) => return Err(e),
            };
            match t1_type {
                Type::Arrow(param_type, return_type) => {
                    if types_equal(&param_type, &t2_type) {
                        Ok(*return_type)
                    } else {
                        Err(TypeError::ArgumentMismatch { expected: *param_type, found: t2_type })
                    }
                },
                other => Err(TypeError::NotAFunction(other)),
            }
        },
    }
}

/// An application whose function side has a type that is not an arrow fails with
/// `NotAFunction` naming that type, once its argument has a type.
pub proof fn lemma_not_a_function(f: Term, a: Term, ctx: Map<Seq<char>, Type>)
    requires
        typing(f, ctx) is Ok,
        typing(f, ctx)->Ok_0 !is Arrow,
        typing(a, ctx) is Ok,
    ensures
        typing(Term::App(Box::new(f), Box::new(a)), ctx) == Err::<Type, TypeError>(
            TypeError::NotAFunction(typing(f, ctx)->Ok_0),
        ),
{
}

/// An application whose argument type differs from the parameter type fails with
/// `ArgumentMismatch` naming both types.
pub proof fn lemma_argument_mismatch(f: Term, a: Term, ctx: Map<Seq<char>, Type>)
    requires
        typing(f, ctx) matches Ok(Type::Arrow(p, _)) && typing(a, ctx) matches Ok(at) && !type_eq(
            *p,
            at,
        ),
    ensures
        typing(Term::App(Box::new(f), Box::new(a)), ctx) == Err::<Type, TypeError>(
            TypeError::ArgumentMismatch {
                expected: *(typing(f, ctx)->Ok_0->Arrow_0),
                found: typing(a, ctx)->Ok_0,
            },
        ),
{
}

} // verus!
