//! The tagged value tree: atoms (number, symbol, string, keyword, nil) and
//! sequences (form, list, vector, map literal, set literal), together with
//! their mathematical models and the operations that build trees during
//! parsing.

use vstd::prelude::*;
use crate::rational::{Rational, rat_eq};

verus! {

/// Model of an atom: a reduced rational, an identifier, a character string,
/// a keyword (stored with its leading `:`), or nil.
pub enum AtomModel {
    Number(int, int),
    Symbol(Seq<char>),
    Str(Seq<char>),
    Keyword(Seq<char>),
    Nil,
}

/// Model of a sequence. `Form` is the one evaluable variant; the others are
/// self-quoting data. `MapLit` keeps its entries in insertion order with
/// unique keys; `SetLit` keeps unique atom elements in insertion order.
pub enum SequenceModel {
    Form(Seq<ValueModel>),
    List(Seq<ValueModel>),
    Vector(Seq<ValueModel>),
    MapLit(Seq<(AtomModel, ValueModel)>),
    SetLit(Seq<AtomModel>),
}

/// Model of a value: an atom or a sequence.
pub enum ValueModel {
    Atom(AtomModel),
    Sequence(SequenceModel),
}

/// A self-evaluating leaf datum.
#[derive(Debug, PartialEq, Eq)]
pub enum Atom {
    Number(Rational),
    Symbol(String),
    Str(String),
    Keyword(String),
    Nil,
}

/// A container datum. Map entries are atom-keyed pairs; set elements are
/// atoms; both are restricted to atoms by construction (no sequence keys).
#[derive(Debug, PartialEq, Eq)]
pub enum Sequence {
    Form(Vec<Value>),
    List(Vec<Value>),
    Vector(Vec<Value>),
    MapLit(Vec<(Atom, Value)>),
    SetLit(Vec<Atom>),
}

/// A runtime datum: an atom or a sequence.
#[derive(Debug, PartialEq, Eq)]
pub enum Value {
    Atom(Atom),
    Sequence(Sequence),
}

impl View for Atom {
    type V = AtomModel;

    open spec fn view(&self) -> AtomModel {
        match *self {
            Atom::Number(r) => AtomModel::Number(r@.0, r@.1),
            Atom::Symbol(s) => AtomModel::Symbol(s@),
            Atom::Str(s) => AtomModel::Str(s@),
            Atom::Keyword(s) => AtomModel::Keyword(s@),
            Atom::Nil => AtomModel::Nil,
        }
    }
}

/// The model of a sequence of values.
pub open spec fn view_values(vs: Seq<Value>) -> Seq<ValueModel>
    decreases vs,
{
    if vs.len() == 0 {
        Seq::empty()
    } else {
        seq![view_value(vs[0])] + view_values(vs.drop_first())
    }
}

/// The model of a sequence of map entries.
pub open spec fn view_entries(ps: Seq<(Atom, Value)>) -> Seq<(AtomModel, ValueModel)>
    decreases ps,
{
    if ps.len() == 0 {
        Seq::empty()
    } else {
        seq![(ps[0].0@, view_value(ps[0].1))] + view_entries(ps.drop_first())
    }
}

/// The model of one sequence datum.
pub open spec fn view_sequence(s: Sequence) -> SequenceModel
    decreases s,
{
    match s {
        Sequence::Form(es) => SequenceModel::Form(view_values(es@)),
        Sequence::List(es) => SequenceModel::List(view_values(es@)),
        Sequence::Vector(es) => SequenceModel::Vector(view_values(es@)),
        Sequence::MapLit(ps) => SequenceModel::MapLit(view_entries(ps@)),
        Sequence::SetLit(xs) => SequenceModel::SetLit(xs@.map_values(|a: Atom| a@)),
    }
}

/// The model of one value.
pub open spec fn view_value(v: Value) -> ValueModel
    decreases v,
{
    match v {
        Value::Atom(a) => ValueModel::Atom(a@),
        Value::Sequence(s) => ValueModel::Sequence(view_sequence(s)),
    }
}

impl View for Sequence {
    type V = SequenceModel;

    open spec fn view(&self) -> SequenceModel {
        view_sequence(*self)
    }
}

impl View for Value {
    type V = ValueModel;

    open spec fn view(&self) -> ValueModel {
        view_value(*self)
    }
}

/// `view_values` maps the view over the elements, one by one.
pub proof fn lemma_view_values(vs: Seq<Value>)
    ensures
        view_values(vs).len() == vs.len(),
        forall|i: int| 0 <= i < vs.len() ==> view_values(vs)[i] == view_value(#[trigger] vs[i]),
    decreases vs,
{
    if vs.len() > 0 {
        lemma_view_values(vs.drop_first());
        assert forall|i: int| 0 <= i < vs.len() implies view_values(vs)[i] == view_value(
            #[trigger] vs[i],
        ) by {
            if i > 0 {
                assert(vs.drop_first()[i - 1] == vs[i]);
                assert(view_values(vs)[i] == view_values(vs.drop_first())[i - 1]);
            }
        }
    }
}

/// Appending an element appends its model.
pub proof fn lemma_view_values_push(vs: Seq<Value>, v: Value)
    ensures
        view_values(vs.push(v)) == view_values(vs).push(view_value(v)),
{
    lemma_view_values(vs);
    lemma_view_values(vs.push(v));
    assert forall|i: int| 0 <= i < vs.len() + 1 implies view_values(vs.push(v))[i] == view_values(
        vs,
    ).push(view_value(v))[i] by {
        assert(view_values(vs.push(v))[i] == view_value(vs.push(v)[i]));
        if i < vs.len() {
            assert(vs.push(v)[i] == vs[i]);
        } else {
            assert(vs.push(v)[i] == v);
        }
    }
    assert(view_values(vs.push(v)) =~= view_values(vs).push(view_value(v)));
}

/// Values equal in model, element by element, have equal sequence models.
pub proof fn lemma_view_values_pointwise(a: Seq<Value>, b: Seq<Value>)
    requires
        a.len() == b.len(),
        forall|i: int| 0 <= i < a.len() ==> (#[trigger] a[i])@ == b[i]@,
    ensures
        view_values(a) == view_values(b),
{
    lemma_view_values(a);
    lemma_view_values(b);
    assert forall|i: int| 0 <= i < a.len() implies view_values(a)[i] == view_values(b)[i] by {
        assert(a[i]@ == b[i]@);
    }
    assert(view_values(a) =~= view_values(b));
}

/// Dropping a prefix commutes with taking models.
pub proof fn lemma_view_values_skip(vs: Seq<Value>, k: int)
    requires
        0 <= k <= vs.len(),
    ensures
        view_values(vs).skip(k) == view_values(vs.skip(k)),
{
    lemma_view_values(vs);
    lemma_view_values(vs.skip(k));
    assert forall|i: int| 0 <= i < vs.len() - k implies view_values(vs).skip(k)[i] == view_values(
        vs.skip(k),
    )[i] by {
        assert(vs.skip(k)[i] == vs[k + i]);
        assert(view_values(vs)[k + i] == view_value(vs[k + i]));
    }
    assert(view_values(vs).skip(k) =~= view_values(vs.skip(k)));
}

/// Entries equal in model, entry by entry, have equal entry models.
pub proof fn lemma_view_entries_pointwise(a: Seq<(Atom, Value)>, b: Seq<(Atom, Value)>)
    requires
        a.len() == b.len(),
        forall|i: int|
            0 <= i < a.len() ==> (#[trigger] a[i]).0@ == b[i].0@ && a[i].1@ == b[i].1@,
    ensures
        view_entries(a) == view_entries(b),
{
    lemma_view_entries(a);
    lemma_view_entries(b);
    assert forall|i: int| 0 <= i < a.len() implies view_entries(a)[i] == view_entries(b)[i] by {
        assert(a[i].0@ == b[i].0@ && a[i].1@ == b[i].1@);
    }
    assert(view_entries(a) =~= view_entries(b));
}

/// `view_entries` maps the views over the entries, one by one.
pub proof fn lemma_view_entries(ps: Seq<(Atom, Value)>)
    ensures
        view_entries(ps).len() == ps.len(),
        forall|i: int| 0 <= i < ps.len() ==> view_entries(ps)[i] == ((#[trigger] ps[i]).0@,
        view_value(ps[i].1)),
    decreases ps,
{
    if ps.len() > 0 {
        lemma_view_entries(ps.drop_first());
        assert forall|i: int| 0 <= i < ps.len() implies view_entries(ps)[i] == ((
        #[trigger] ps[i]).0@, view_value(ps[i].1)) by {
            if i > 0 {
                assert(ps.drop_first()[i - 1] == ps[i]);
                assert(view_entries(ps)[i] == view_entries(ps.drop_first())[i - 1]);
            }
        }
    }
}

/// Character-by-character string equality; the result reflects equality of
/// the two views.
pub fn str_eq(a: &str, b: &str) -> (r: bool)
    ensures
        r == (a@ == b@),
{
    let n = a.unicode_len();
    let m = b.unicode_len();
    if n != m {
        return false;
    }
    let mut i: usize = 0;
    while i < n
        invariant
            0 <= i <= n,
            n == a@.len(),
            n == b@.len(),
            forall|k: int| 0 <= k < i ==> a@[k] == b@[k],
        decreases n - i,
    {
        if a.get_char(i) != b.get_char(i) {
            return false;
        }
        i += 1;
    }
    proof {
        assert(a@ =~= b@);
    }
    true
}

/// A well-formed runtime atom: its rational, if any, is stored in lowest
/// terms.
pub open spec fn wf_atom(a: Atom) -> bool {
    match a {
        Atom::Number(r) => r.wf(),
        _ => true,
    }
}

/// A well-formed runtime value: every rational in the tree is stored in
/// lowest terms.
pub open spec fn wf_value(v: Value) -> bool
    decreases v,
{
    match v {
        Value::Atom(a) => wf_atom(a),
        Value::Sequence(s) => wf_sequence(s),
    }
}

/// A well-formed runtime sequence: every rational under it is stored in
/// lowest terms.
pub open spec fn wf_sequence(s: Sequence) -> bool
    decreases s,
{
    match s {
        Sequence::Form(es) => forall|i: int| 0 <= i < es@.len() ==> wf_value(#[trigger] es@[i]),
        Sequence::List(es) => forall|i: int| 0 <= i < es@.len() ==> wf_value(#[trigger] es@[i]),
        Sequence::Vector(es) => forall|i: int| 0 <= i < es@.len() ==> wf_value(#[trigger] es@[i]),
        Sequence::MapLit(ps) => forall|i: int|
            0 <= i < ps@.len() ==> wf_atom((#[trigger] ps@[i]).0) && wf_value(ps@[i].1),
        Sequence::SetLit(xs) => forall|i: int| 0 <= i < xs@.len() ==> wf_atom(#[trigger] xs@[i]),
    }
}

/// Atom equality, decided structurally; the result reflects equality of the
/// two models.
pub fn atom_eq(a: &Atom, b: &Atom) -> (r: bool)
    requires
        wf_atom(*a),
        wf_atom(*b),
    ensures
        r == (a@ == b@),
{
    match (a, b) {
        (Atom::Number(x), Atom::Number(y)) => rat_eq(x, y),
        (Atom::Symbol(x), Atom::Symbol(y)) => str_eq(x.as_str(), y.as_str()),
        (Atom::Str(x), Atom::Str(y)) => str_eq(x.as_str(), y.as_str()),
        (Atom::Keyword(x), Atom::Keyword(y)) => str_eq(x.as_str(), y.as_str()),
        (Atom::Nil, Atom::Nil) => true,
        _ => false,
    }
}

impl Sequence {
    /// The variants that accept elements one at a time while a tree is being
    /// built: forms, lists and vectors. Map and set literals are assembled
    /// from their elements only when their closer is reached.
    pub open spec fn appendable(self) -> bool {
        self is Form || self is List || self is Vector
    }

    /// The same kind of sequence with `x` appended, for appendable variants.
    pub open spec fn spec_push(self, x: ValueModel) -> SequenceModel {
        match view_sequence(self) {
            SequenceModel::Form(es) => SequenceModel::Form(es.push(x)),
            SequenceModel::List(es) => SequenceModel::List(es.push(x)),
            SequenceModel::Vector(es) => SequenceModel::Vector(es.push(x)),
            m => m,
        }
    }

    /// Appends one element to a form, list or vector under construction.
    pub fn add(&mut self, v: Value)
        requires
            old(self).appendable(),
        ensures
            final(self)@ == old(self).spec_push(v@),
            final(self).appendable(),
    {
        let ghost vm = v@;
        match self {
            Sequence::Form(es) => {
                let ghost es0 = es@;
                es.push(v);
                proof {
                    lemma_view_values_push(es0, es@.last());
                    assert(view_values(es@) == view_values(es0).push(vm));
                }
            },
            Sequence::List(es) => {
                let ghost es0 = es@;
                es.push(v);
                proof {
                    lemma_view_values_push(es0, es@.last());
                    assert(view_values(es@) == view_values(es0).push(vm));
                }
            },
            Sequence::Vector(es) => {
                let ghost es0 = es@;
                es.push(v);
                proof {
                    lemma_view_values_push(es0, es@.last());
                    assert(view_values(es@) == view_values(es0).push(vm));
                }
            },
            _ => {
                proof {
                    assert(false);
                }
            },
        }
    }

    /// Appends one element to a list, the only `conj`-capable variant.
    pub fn conj(&mut self, v: Value)
        requires
            *old(self) is List,
        ensures
            final(self)@ == old(self).spec_push(v@),
            *final(self) is List,
    {
        self.add(v)
    }
}

impl Value {
    /// True of values that are sequences still accepting elements.
    pub open spec fn appendable(self) -> bool {
        self matches Value::Sequence(s) && s.appendable()
    }

    /// Appends one element to the sequence held by this value.
    pub fn add(&mut self, v: Value)
        requires
            old(self).appendable(),
        ensures
            *final(self) matches Value::Sequence(s2) && (*old(self) matches Value::Sequence(s1)
                ==> s2@ == s1.spec_push(v@)),
            final(self).appendable(),
    {
        match self {
            Value::Sequence(s) => s.add(v),
            _ => {
                proof {
                    assert(false);
                }
            },
        }
    }
}

} // verus!
