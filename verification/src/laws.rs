//! General properties of the evaluator, stated over the evaluation model
//! and proved once for every input.

use vstd::prelude::*;
use crate::errors::ErrorModel;
use crate::eval::spec_eval;
use crate::namespace::{Builtin, spec_lookup};
use crate::value::{AtomModel, SequenceModel, ValueModel};

verus! {

/// Quoted sequences never recurse into evaluation of their elements: a
/// list — with any elements, under any namespace — evaluates to itself,
/// unchanged, and prints nothing; and so do vectors, map literals and set
/// literals.
pub proof fn lemma_quoted_sequences_self_evaluate(
    elems: Seq<ValueModel>,
    entries: Seq<(AtomModel, ValueModel)>,
    atoms: Seq<AtomModel>,
    ns: Seq<(Seq<char>, Builtin)>,
)
    ensures
        spec_eval(ValueModel::Sequence(SequenceModel::List(elems)), ns) == (
            Seq::<ValueModel>::empty(),
            Ok::<ValueModel, ErrorModel>(ValueModel::Sequence(SequenceModel::List(elems))),
        ),
        spec_eval(ValueModel::Sequence(SequenceModel::Vector(elems)), ns) == (
            Seq::<ValueModel>::empty(),
            Ok::<ValueModel, ErrorModel>(ValueModel::Sequence(SequenceModel::Vector(elems))),
        ),
        spec_eval(ValueModel::Sequence(SequenceModel::MapLit(entries)), ns) == (
            Seq::<ValueModel>::empty(),
            Ok::<ValueModel, ErrorModel>(ValueModel::Sequence(SequenceModel::MapLit(entries))),
        ),
        spec_eval(ValueModel::Sequence(SequenceModel::SetLit(atoms)), ns) == (
            Seq::<ValueModel>::empty(),
            Ok::<ValueModel, ErrorModel>(ValueModel::Sequence(SequenceModel::SetLit(atoms))),
        ),
{
}

/// Every non-symbol atom — a number, a string, a keyword, nil — evaluates
/// to itself under any namespace and prints nothing.
pub proof fn lemma_atoms_self_evaluate(a: AtomModel, ns: Seq<(Seq<char>, Builtin)>)
    requires
        !(a is Symbol),
    ensures
        spec_eval(ValueModel::Atom(a), ns) == (
            Seq::<ValueModel>::empty(),
            Ok::<ValueModel, ErrorModel>(ValueModel::Atom(a)),
        ),
{
}

/// Evaluating a form whose operator is a symbol with no namespace entry
/// fails with the unbound-symbol error naming that symbol, whatever the
/// argument expressions, and prints nothing.
pub proof fn lemma_unbound_operator_fails(
    name: Seq<char>,
    rest: Seq<ValueModel>,
    ns: Seq<(Seq<char>, Builtin)>,
)
    requires
        spec_lookup(ns, name) is None,
    ensures
        ({
            let es = seq![ValueModel::Atom(AtomModel::Symbol(name))] + rest;
            spec_eval(ValueModel::Sequence(SequenceModel::Form(es)), ns) == (
                Seq::<ValueModel>::empty(),
                Err::<ValueModel, ErrorModel>(ErrorModel::UnboundSymbolError(name)),
            )
        }),
{
    let es = seq![ValueModel::Atom(AtomModel::Symbol(name))] + rest;
    assert(es[0] == ValueModel::Atom(AtomModel::Symbol(name)));
    assert(es.len() > 0);
    assert(spec_eval(es[0], ns) == (
        Seq::<ValueModel>::empty(),
        Err::<ValueModel, ErrorModel>(ErrorModel::UnboundSymbolError(name)),
    ));
}

/// Evaluating a form whose operator is an atom other than a symbol — a
/// number at its head, say — fails with the not-callable error, whatever
/// the argument expressions, and prints nothing.
pub proof fn lemma_non_symbol_operator_not_callable(
    head: AtomModel,
    rest: Seq<ValueModel>,
    ns: Seq<(Seq<char>, Builtin)>,
)
    requires
        !(head is Symbol),
    ensures
        ({
            let es = seq![ValueModel::Atom(head)] + rest;
            spec_eval(ValueModel::Sequence(SequenceModel::Form(es)), ns) == (
                Seq::<ValueModel>::empty(),
                Err::<ValueModel, ErrorModel>(ErrorModel::NotCallableError),
            )
        }),
{
    let es = seq![ValueModel::Atom(head)] + rest;
    assert(es[0] == ValueModel::Atom(head));
    assert(es.len() > 0);
    lemma_atoms_self_evaluate(head, ns);
    assert(spec_eval(es[0], ns) == (
        Seq::<ValueModel>::empty(),
        Ok::<ValueModel, ErrorModel>(ValueModel::Atom(head)),
    ));
}

} // verus!
