//! The evaluator: atoms and quoted sequences evaluate to themselves,
//! symbols resolve through the namespace, and a form evaluates its operator
//! and then its arguments left to right and applies the built-in the
//! operator denotes. Evaluation produces a fresh value: input and result
//! trees never alias. The side effect of `println` is modelled as data:
//! every call appends the list of its (evaluated) arguments to an output
//! log, which the session loop prints.

use vstd::prelude::*;
use crate::errors::{ErrorModel, RispError};
use crate::lexer::{spec_tokenize, tokenize};
use crate::namespace::{Builtin, Namespace, spec_lookup};
use crate::reader::{parse_top_at, spec_parse_top};
use crate::value::{
    Atom, AtomModel, Sequence, SequenceModel, Value, ValueModel, lemma_view_values,
    lemma_view_values_push, view_value, view_values,
};

verus! {

/// What applying a built-in to evaluated arguments does: the values whose
/// representations are printed, and the result. `println` logs its whole
/// argument list and returns nil; `conj` takes exactly a list and a value
/// and returns the list with the value appended.
pub open spec fn spec_apply(b: Builtin, args: Seq<ValueModel>) -> (
    Seq<ValueModel>,
    Result<ValueModel, ErrorModel>,
) {
    match b {
        Builtin::Println => (
            seq![ValueModel::Sequence(SequenceModel::List(args))],
            Ok(ValueModel::Atom(AtomModel::Nil)),
        ),
        Builtin::Conj => {
            if args.len() != 2 {
                (
                    Seq::empty(),
                    Err(ErrorModel::ArityError { expected: 2, found: args.len() as int }),
                )
            } else {
                match args[0] {
                    ValueModel::Sequence(SequenceModel::List(es)) => (
                        Seq::empty(),
                        Ok(ValueModel::Sequence(SequenceModel::List(es.push(args[1])))),
                    ),
                    _ => (Seq::empty(), Err(ErrorModel::UnsupportedOperationError)),
                }
            }
        },
    }
}

/// The built-in an evaluated operator denotes: only a symbol bound in the
/// namespace denotes one.
pub open spec fn callable_of(hv: ValueModel, ns: Seq<(Seq<char>, Builtin)>) -> Option<Builtin> {
    match hv {
        ValueModel::Atom(AtomModel::Symbol(name)) => spec_lookup(ns, name),
        _ => None,
    }
}

/// Evaluation of one value: the printed output in order, and the result or
/// the first error. Atoms evaluate to themselves, a symbol to itself when
/// bound and to an unbound-symbol error otherwise; lists, vectors, maps and
/// sets are self-quoting and never recurse; a form evaluates its operator,
/// requires it to denote a built-in, evaluates the arguments left to right
/// and applies the built-in. An empty form has no operator to call.
pub open spec fn spec_eval(v: ValueModel, ns: Seq<(Seq<char>, Builtin)>) -> (
    Seq<ValueModel>,
    Result<ValueModel, ErrorModel>,
)
    decreases v, 0nat,
{
    match v {
        ValueModel::Atom(a) => match a {
            AtomModel::Symbol(name) => {
                if spec_lookup(ns, name) is Some {
                    (Seq::empty(), Ok(v))
                } else {
                    (Seq::empty(), Err(ErrorModel::UnboundSymbolError(name)))
                }
            },
            _ => (Seq::empty(), Ok(v)),
        },
        ValueModel::Sequence(s) => match s {
            SequenceModel::Form(es) => {
                if es.len() == 0 {
                    (Seq::empty(), Err(ErrorModel::NotCallableError))
                } else {
                    let (out0, r0) = spec_eval(es[0], ns);
                    match r0 {
                        Err(e) => (out0, Err(e)),
                        Ok(hv) => match callable_of(hv, ns) {
                            None => (out0, Err(ErrorModel::NotCallableError)),
                            Some(b) => {
                                let (out1, r1) = spec_eval_args(es.drop_first(), ns);
                                match r1 {
                                    Err(e) => (out0 + out1, Err(e)),
                                    Ok(args) => {
                                        let (out2, r2) = spec_apply(b, args);
                                        (out0 + out1 + out2, r2)
                                    },
                                }
                            },
                        },
                    }
                }
            },
            _ => (Seq::empty(), Ok(v)),
        },
    }
}

/// Evaluation of a sequence of values in order, stopping at the first
/// error: the printed output, and the results or the error.
pub open spec fn spec_eval_args(vs: Seq<ValueModel>, ns: Seq<(Seq<char>, Builtin)>) -> (
    Seq<ValueModel>,
    Result<Seq<ValueModel>, ErrorModel>,
)
    decreases vs, 1nat,
{
    if vs.len() == 0 {
        (Seq::empty(), Ok(Seq::empty()))
    } else {
        let (out0, r0) = spec_eval(vs[0], ns);
        match r0 {
            Err(e) => (out0, Err(e)),
            Ok(v0) => {
                let (out1, r1) = spec_eval_args(vs.drop_first(), ns);
                match r1 {
                    Err(e) => (out0 + out1, Err(e)),
                    Ok(rest) => (out0 + out1, Ok(seq![v0] + rest)),
                }
            },
        }
    }
}

/// A fresh copy of an atom, equal in model.
fn copy_atom(a: &Atom) -> (r: Atom)
    ensures
        r@ == a@,
{
    match a {
        Atom::Number(x) => Atom::Number(*x),
        Atom::Symbol(s) => Atom::Symbol(s.clone()),
        Atom::Str(s) => Atom::Str(s.clone()),
        Atom::Keyword(s) => Atom::Keyword(s.clone()),
        Atom::Nil => Atom::Nil,
    }
}

/// A fresh copy of a value tree, equal in model: evaluation hands back a
/// result that never aliases its input.
fn copy_value(v: &Value) -> (r: Value)
    ensures
        r@ == v@,
    decreases v, 1nat,
{
    match v {
        Value::Atom(a) => Value::Atom(copy_atom(a)),
        Value::Sequence(s) => Value::Sequence(copy_sequence(s)),
    }
}

/// A fresh copy of a sequence, equal in model.
fn copy_sequence(s: &Sequence) -> (r: Sequence)
    ensures
        r@ == s@,
    decreases s, 3nat,
{
    match s {
        Sequence::Form(es) => Sequence::Form(copy_values(es)),
        Sequence::List(es) => Sequence::List(copy_values(es)),
        Sequence::Vector(es) => Sequence::Vector(copy_values(es)),
        Sequence::MapLit(ps) => {
            let n = ps.len();
            let mut out: Vec<(Atom, Value)> = Vec::new();
            let mut i: usize = 0;
            #[verifier::loop_isolation(false)]
            while i < n
                invariant
                    0 <= i <= n,
                    n == ps@.len(),
                    out@.len() == i,
                    forall|x: int|
                        0 <= x < i ==> (#[trigger] out@[x]).0@ == ps@[x].0@ && out@[x].1@
                            == ps@[x].1@,
                decreases n - i,
            {
                let pair = (copy_atom(&ps[i].0), copy_value(&ps[i].1));
                out.push(pair);
                i += 1;
            }
            proof {
                crate::value::lemma_view_entries_pointwise(out@, ps@);
            }
            Sequence::MapLit(out)
        },
        Sequence::SetLit(xs) => {
            let n = xs.len();
            let mut out: Vec<Atom> = Vec::new();
            let mut i: usize = 0;
            #[verifier::loop_isolation(false)]
            while i < n
                invariant
                    0 <= i <= n,
                    n == xs@.len(),
                    out@.len() == i,
                    forall|x: int| 0 <= x < i ==> (#[trigger] out@[x])@ == xs@[x]@,
                decreases n - i,
            {
                let a = copy_atom(&xs[i]);
                out.push(a);
                i += 1;
            }
            proof {
                assert(out@.map_values(|a: Atom| a@) =~= xs@.map_values(|a: Atom| a@));
            }
            Sequence::SetLit(out)
        },
    }
}

/// Fresh copies of a vector of values, equal in model.
fn copy_values(es: &Vec<Value>) -> (r: Vec<Value>)
    ensures
        view_values(r@) == view_values(es@),
    decreases es, 2nat,
{
    let n = es.len();
    let mut out: Vec<Value> = Vec::new();
    let mut i: usize = 0;
    #[verifier::loop_isolation(false)]
    while i < n
        invariant
            0 <= i <= n,
            n == es@.len(),
            out@.len() == i,
            forall|x: int| 0 <= x < i ==> (#[trigger] out@[x])@ == es@[x]@,
        decreases n - i,
    {
        let c = copy_value(&es[i]);
        out.push(c);
        i += 1;
    }
    proof {
        crate::value::lemma_view_values_pointwise(out@, es@);
    }
    out
}

/// Applies a built-in to its evaluated arguments; `out` collects what the
/// call prints.
pub fn apply_builtin(b: Builtin, args: Vec<Value>, out: &mut Vec<Value>) -> (r: Result<
    Value,
    RispError,
>)
    ensures
        ({
            let (o, res) = spec_apply(b, view_values(args@));
            &&& view_values(final(out)@) == view_values(old(out)@) + o
            &&& match (r, res) {
                (Ok(v), Ok(m)) => v@ == m,
                (Err(e), Err(em)) => e@ == em,
                _ => false,
            }
        }),
{
    let ghost argm = view_values(args@);
    proof {
        lemma_view_values(args@);
    }
    match b {
        Builtin::Println => {
            let ghost out0 = out@;
            out.push(Value::Sequence(Sequence::List(args)));
            proof {
                lemma_view_values_push(out0, out@.last());
                assert(view_values(out@) =~= view_values(old(out)@) + seq![
                    ValueModel::Sequence(SequenceModel::List(argm)),
                ]);
            }
            Ok(Value::Atom(Atom::Nil))
        },
        Builtin::Conj => {
            proof {
                assert(view_values(out@) =~= view_values(old(out)@) + Seq::<ValueModel>::empty());
            }
            if args.len() != 2 {
                return Err(RispError::ArityError { expected: 2, found: args.len() });
            }
            let mut args = args;
            let v = match args.pop() {
                Some(v) => v,
                None => {
                    proof {
                        assert(false);
                    }
                    Value::Atom(Atom::Nil)
                },
            };
            let sv = match args.pop() {
                Some(sv) => sv,
                None => {
                    proof {
                        assert(false);
                    }
                    Value::Atom(Atom::Nil)
                },
            };
            proof {
                assert(sv@ == argm[0]);
                assert(v@ == argm[1]);
            }
            match sv {
                Value::Sequence(Sequence::List(mut es)) => {
                    let ghost es0 = es@;
                    es.push(v);
                    proof {
                        lemma_view_values_push(es0, es@.last());
                    }
                    Ok(Value::Sequence(Sequence::List(es)))
                },
                _ => Err(RispError::UnsupportedOperationError),
            }
        },
    }
}

impl Value {
    /// Evaluates this value against the namespace. `out` collects, in
    /// order, one list per `println` call: the call's evaluated arguments.
    /// The result is a fresh tree; the input is never aliased.
    pub fn eval(&self, ns: &Namespace, out: &mut Vec<Value>) -> (r: Result<Value, RispError>)
        ensures
            ({
                let (o, res) = spec_eval(view_value(*self), ns@);
                &&& view_values(final(out)@) == view_values(old(out)@) + o
                &&& match (r, res) {
                    (Ok(v), Ok(m)) => v@ == m,
                    (Err(e), Err(em)) => e@ == em,
                    _ => false,
                }
            }),
        decreases self, 0nat,
    {
        match self {
            Value::Atom(a) => {
                proof {
                    assert(view_values(out@) =~= view_values(old(out)@) + Seq::<ValueModel>::empty());
                }
                match a {
                    Atom::Symbol(name) => match ns.lookup(name.as_str()) {
                        Some(_) => Ok(copy_value(self)),
                        None => Err(RispError::UnboundSymbolError(name.clone())),
                    },
                    _ => Ok(copy_value(self)),
                }
            },
            Value::Sequence(s) => match s {
                Sequence::Form(es) => {
                    let ghost esm = view_values(es@);
                    proof {
                        lemma_view_values(es@);
                    }
                    if es.len() == 0 {
                        proof {
                            assert(view_values(out@) =~= view_values(old(out)@) + Seq::<ValueModel>::empty());
                        }
                        return Err(RispError::NotCallableError);
                    }
                    let ghost out_start = out@;
                    let hr = es[0].eval(ns, out);
                    let hv = match hr {
                        Ok(hv) => hv,
                        Err(e) => {
                            return Err(e);
                        },
                    };
                    let b = match &hv {
                        Value::Atom(Atom::Symbol(name)) => match ns.lookup(name.as_str()) {
                            Some(b) => b,
                            None => {
                                return Err(RispError::NotCallableError);
                            },
                        },
                        _ => {
                            return Err(RispError::NotCallableError);
                        },
                    };
                    let ghost out_head = out@;
                    let args = match eval_args(es, 1, ns, out) {
                        Ok(args) => args,
                        Err(e) => {
                            proof {
                                assert(esm.drop_first() =~= view_values(es@.skip(1)));
                                assert(view_values(out@) =~= view_values(old(out)@) + (spec_eval(
                                    esm[0],
                                    ns@,
                                ).0 + spec_eval_args(esm.drop_first(), ns@).0));
                            }
                            return Err(e);
                        },
                    };
                    proof {
                        assert(esm.drop_first() =~= view_values(es@.skip(1)));
                    }
                    let ghost out_args = out@;
                    let r = apply_builtin(b, args, out);
                    proof {
                        let o0 = spec_eval(esm[0], ns@).0;
                        let o1 = spec_eval_args(esm.drop_first(), ns@).0;
                        let o2 = spec_apply(b, view_values(args@)).0;
                        assert(view_values(out@) =~= view_values(old(out)@) + (o0 + o1 + o2));
                    }
                    r
                },
                _ => {
                    proof {
                        assert(view_values(out@) =~= view_values(old(out)@) + Seq::<ValueModel>::empty());
                    }
                    Ok(copy_value(self))
                },
            },
        }
    }
}

/// Evaluates `es[start..]` left to right, stopping at the first error.
fn eval_args(es: &Vec<Value>, start: usize, ns: &Namespace, out: &mut Vec<Value>) -> (r: Result<
    Vec<Value>,
    RispError,
>)
    requires
        start <= es@.len(),
    ensures
        ({
            let (o, res) = spec_eval_args(view_values(es@.skip(start as int)), ns@);
            &&& view_values(final(out)@) == view_values(old(out)@) + o
            &&& match (r, res) {
                (Ok(vs), Ok(m)) => view_values(vs@) == m,
                (Err(e), Err(em)) => e@ == em,
                _ => false,
            }
        }),
    decreases es, es@.len() - start, 1nat,
{
    let ghost vsm = view_values(es@.skip(start as int));
    proof {
        lemma_view_values(es@.skip(start as int));
        lemma_view_values(es@);
    }
    if start >= es.len() {
        let empty: Vec<Value> = Vec::new();
        proof {
            assert(view_values(empty@) =~= Seq::<ValueModel>::empty());
            assert(view_values(out@) =~= view_values(old(out)@) + Seq::<ValueModel>::empty());
        }
        return Ok(empty);
    }
    proof {
        assert(es@.skip(start as int)[0] == es@[start as int]);
    }
    let r0 = es[start].eval(ns, out);
    let v0 = match r0 {
        Ok(v0) => v0,
        Err(e) => {
            return Err(e);
        },
    };
    proof {
        crate::value::lemma_view_values_skip(es@.skip(start as int), 1);
        assert(es@.skip(start as int).skip(1) =~= es@.skip(start as int + 1));
        assert(vsm.drop_first() =~= view_values(es@.skip(start as int + 1)));
    }
    match eval_args(es, start + 1, ns, out) {
        Err(e) => {
            proof {
                assert(view_values(out@) =~= view_values(old(out)@) + (spec_eval(vsm[0], ns@).0
                    + spec_eval_args(vsm.drop_first(), ns@).0));
            }
            Err(e)
        },
        Ok(mut rest) => {
            let ghost rest0 = rest@;
            let ghost vm = v0@;
            rest.insert(0, v0);
            proof {
                assert(view_values(out@) =~= view_values(old(out)@) + (spec_eval(vsm[0], ns@).0
                    + spec_eval_args(vsm.drop_first(), ns@).0));
                assert(rest@ =~= seq![rest@[0]] + rest0);
                assert(view_values(rest@) =~= seq![vm] + view_values(rest0)) by {
                    lemma_view_values(rest@);
                    lemma_view_values(rest0);
                    assert(rest@[0]@ == vm);
                    assert forall|x: int| 0 <= x < rest@.len() implies view_values(rest@)[x] == (
                    seq![vm] + view_values(rest0))[x] by {
                        if x > 0 {
                            assert(rest@[x] == rest0[x - 1]);
                        }
                    }
                }
            }
            Ok(rest)
        },
    }
}

/// One read-eval pass over a line of source: its printed output and the
/// evaluation results of its top-level forms, or the first error.
pub open spec fn spec_read_eval(src: Seq<char>, ns: Seq<(Seq<char>, Builtin)>, depth: nat) -> (
    Seq<ValueModel>,
    Result<Seq<ValueModel>, ErrorModel>,
) {
    let toks = spec_tokenize(src, 0);
    match spec_parse_top(toks, 0, depth) {
        Err(e) => (Seq::empty(), Err(e)),
        Ok(vals) => spec_eval_args(vals, ns),
    }
}

/// Reads one line of source: tokenizes it, parses every top-level form,
/// and evaluates each in order. Returns the evaluation results; `out`
/// collects what `println` calls print. Nesting beyond `max_depth` is
/// rejected.
pub fn read_eval(input: &str, ns: &Namespace, max_depth: usize, out: &mut Vec<Value>) -> (r:
    Result<Vec<Value>, RispError>)
    ensures
        ({
            let (o, res) = spec_read_eval(input@, ns@, max_depth as nat);
            &&& view_values(final(out)@) == view_values(old(out)@) + o
            &&& match (r, res) {
                (Ok(vs), Ok(m)) => view_values(vs@) == m,
                (Err(e), Err(em)) => e@ == em,
                _ => false,
            }
        }),
{
    let toks = tokenize(input);
    let vals = match parse_top_at(&toks, 0, max_depth) {
        Ok(vals) => vals,
        Err(e) => {
            proof {
                assert(view_values(out@) =~= view_values(old(out)@) + Seq::<ValueModel>::empty());
            }
            return Err(e);
        },
    };
    proof {
        assert(vals@.skip(0) =~= vals@);
    }
    eval_args(&vals, 0, ns, out)
}

} // verus!
