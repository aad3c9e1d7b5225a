//! The reader: recursive descent over the token stream, keyed on the
//! current token. An opening delimiter starts a new, correspondingly-typed
//! empty sequence and parses tokens into it until its matching closer; a
//! closing token ends the current level; any other token is classified into
//! an atom. Exhausting the stream inside a nested level is an error, never
//! a silently truncated sequence. Recursion depth is bounded by an explicit
//! ceiling.

use vstd::prelude::*;
use crate::atoms::spec_classify;
use crate::errors::{ErrorModel, RispError};
use crate::lexer::{is_closer, token_models};
use crate::value::{
    Atom, AtomModel, Sequence, SequenceModel, Value, ValueModel, atom_eq, view_sequence,
    view_value, view_values, wf_atom, wf_value,
};

verus! {

/// The kind of sequence an opening delimiter starts.
#[derive(Clone, Copy, Debug, PartialEq, Eq, Structural)]
pub enum Opener {
    FormK,
    ListK,
    VectorK,
    MapK,
    SetK,
}

/// The opening delimiter a token stands for, if any: `(`, `'(`, `[`, `{`
/// or `#{`. The token `#(` is no opener and classifies as a symbol.
pub open spec fn opener_kind(t: Seq<char>) -> Option<Opener> {
    if t.len() == 1 && t[0] == '(' {
        Some(Opener::FormK)
    } else if t.len() == 2 && t[0] == '\'' && t[1] == '(' {
        Some(Opener::ListK)
    } else if t.len() == 1 && t[0] == '[' {
        Some(Opener::VectorK)
    } else if t.len() == 1 && t[0] == '{' {
        Some(Opener::MapK)
    } else if t.len() == 2 && t[0] == '#' && t[1] == '{' {
        Some(Opener::SetK)
    } else {
        None
    }
}

/// The closing delimiter that matches an opener.
pub open spec fn closer_of(k: Opener) -> char {
    match k {
        Opener::FormK => ')',
        Opener::ListK => ')',
        Opener::VectorK => ']',
        Opener::MapK => '}',
        Opener::SetK => '}',
    }
}

/// A closing-delimiter token: `)`, `]` or `}`.
pub open spec fn is_closer_tok(t: Seq<char>) -> bool {
    t.len() == 1 && is_closer(t[0])
}

/// The atom under an atom-model value.
pub open spec fn atom_of(v: ValueModel) -> AtomModel
    recommends
        v is Atom,
{
    match v {
        ValueModel::Atom(a) => a,
        _ => arbitrary(),
    }
}

/// Whether `key` is among the keys of the accumulated entries.
pub open spec fn has_key(acc: Seq<(AtomModel, ValueModel)>, key: AtomModel) -> bool {
    exists|i: int| 0 <= i < acc.len() && (#[trigger] acc[i]).0 == key
}

/// Assembles map entries from the elements of a `{ … }` literal, two at a
/// time: key then value. A non-atom key, an odd number of elements or a
/// repeated key is invalid.
pub open spec fn build_entries(
    elems: Seq<ValueModel>,
    acc: Seq<(AtomModel, ValueModel)>,
) -> Result<Seq<(AtomModel, ValueModel)>, ErrorModel>
    decreases elems.len(),
{
    if elems.len() == 0 {
        Ok(acc)
    } else if elems.len() == 1 {
        Err(ErrorModel::ParseInvalidAtom(seq!['{']))
    } else if !(elems[0] is Atom) {
        Err(ErrorModel::ParseInvalidAtom(seq!['{']))
    } else if has_key(acc, atom_of(elems[0])) {
        Err(ErrorModel::ParseInvalidAtom(seq!['{']))
    } else {
        build_entries(elems.skip(2), acc.push((atom_of(elems[0]), elems[1])))
    }
}

/// Whether `x` is among the accumulated set elements.
pub open spec fn has_elem(acc: Seq<AtomModel>, x: AtomModel) -> bool {
    exists|i: int| 0 <= i < acc.len() && #[trigger] acc[i] == x
}

/// Assembles set elements from the elements of a `#{ … }` literal. A
/// non-atom element or a repeated element is invalid.
pub open spec fn build_set(elems: Seq<ValueModel>, acc: Seq<AtomModel>) -> Result<
    Seq<AtomModel>,
    ErrorModel,
>
    decreases elems.len(),
{
    if elems.len() == 0 {
        Ok(acc)
    } else if !(elems[0] is Atom) {
        Err(ErrorModel::ParseInvalidAtom(seq!['#', '{']))
    } else if has_elem(acc, atom_of(elems[0])) {
        Err(ErrorModel::ParseInvalidAtom(seq!['#', '{']))
    } else {
        build_set(elems.drop_first(), acc.push(atom_of(elems[0])))
    }
}

/// The sequence value an opener's collected elements assemble into.
pub open spec fn finish_seq(k: Opener, elems: Seq<ValueModel>) -> Result<ValueModel, ErrorModel> {
    match k {
        Opener::FormK => Ok(ValueModel::Sequence(SequenceModel::Form(elems))),
        Opener::ListK => Ok(ValueModel::Sequence(SequenceModel::List(elems))),
        Opener::VectorK => Ok(ValueModel::Sequence(SequenceModel::Vector(elems))),
        Opener::MapK => match build_entries(elems, Seq::empty()) {
            Ok(ps) => Ok(ValueModel::Sequence(SequenceModel::MapLit(ps))),
            Err(e) => Err(e),
        },
        Opener::SetK => match build_set(elems, Seq::empty()) {
            Ok(xs) => Ok(ValueModel::Sequence(SequenceModel::SetLit(xs))),
            Err(e) => Err(e),
        },
    }
}

/// The cursor after a sub-read, kept inside `(i, n]` so that every read
/// makes progress. A successful sub-read always lands there already.
pub open spec fn next_cursor(i: int, j: int, n: int) -> int {
    if j <= i {
        i + 1
    } else if j > n {
        n
    } else {
        j
    }
}

/// One value read at token position `i`: an opener's whole literal, or one
/// atom. Returns the value and the position after it.
pub open spec fn spec_parse_value(toks: Seq<Seq<char>>, i: int, depth: nat) -> Result<
    (ValueModel, int),
    ErrorModel,
>
    recommends
        0 <= i < toks.len(),
    decreases toks.len() - i, 0nat,
    when 0 <= i < toks.len()
{
    let t = toks[i];
    match opener_kind(t) {
        Some(k) => {
            if depth == 0 {
                Err(ErrorModel::ParseDepthExceeded)
            } else {
                match spec_parse_elems(toks, i + 1, k, (depth - 1) as nat) {
                    Ok((elems, j)) => match finish_seq(k, elems) {
                        Ok(v) => Ok((v, j)),
                        Err(e) => Err(e),
                    },
                    Err(e) => Err(e),
                }
            }
        },
        None => {
            if is_closer_tok(t) {
                Err(ErrorModel::ParseUnexpectedClose(t))
            } else {
                match spec_classify(t) {
                    Ok(a) => Ok((ValueModel::Atom(a), i + 1)),
                    Err(e) => Err(e),
                }
            }
        },
    }
}

/// The elements of one open literal, read until its matching closer. A
/// different closer is unexpected; running out of tokens is an unexpected
/// end. Returns the elements and the position after the closer.
pub open spec fn spec_parse_elems(toks: Seq<Seq<char>>, i: int, k: Opener, depth: nat) -> Result<
    (Seq<ValueModel>, int),
    ErrorModel,
>
    decreases toks.len() - i, 1nat,
    when 0 <= i
{
    if i >= toks.len() {
        Err(ErrorModel::ParseUnexpectedEnd)
    } else if is_closer_tok(toks[i]) {
        if toks[i][0] == closer_of(k) {
            Ok((Seq::empty(), i + 1))
        } else {
            Err(ErrorModel::ParseUnexpectedClose(toks[i]))
        }
    } else {
        match spec_parse_value(toks, i, depth) {
            Ok((v, j)) => {
                let j1 = next_cursor(i, j, toks.len() as int);
                match spec_parse_elems(toks, j1, k, depth) {
                    Ok((rest, j2)) => Ok((seq![v] + rest, j2)),
                    Err(e) => Err(e),
                }
            },
            Err(e) => Err(e),
        }
    }
}

/// All top-level values of a token stream. A closing token with no opener
/// is unexpected; exhausting the stream here is the normal end.
pub open spec fn spec_parse_top(toks: Seq<Seq<char>>, i: int, depth: nat) -> Result<
    Seq<ValueModel>,
    ErrorModel,
>
    decreases toks.len() - i, 2nat,
    when 0 <= i
{
    if i >= toks.len() {
        Ok(Seq::empty())
    } else if is_closer_tok(toks[i]) {
        Err(ErrorModel::ParseUnexpectedClose(toks[i]))
    } else {
        match spec_parse_value(toks, i, depth) {
            Ok((v, j)) => {
                let j1 = next_cursor(i, j, toks.len() as int);
                match spec_parse_top(toks, j1, depth) {
                    Ok(rest) => Ok(seq![v] + rest),
                    Err(e) => Err(e),
                }
            },
            Err(e) => Err(e),
        }
    }
}

/// A successful read always advances the cursor and never runs past the
/// end of the stream.
pub proof fn lemma_parse_value_advances(toks: Seq<Seq<char>>, i: int, depth: nat)
    requires
        0 <= i < toks.len(),
    ensures
        spec_parse_value(toks, i, depth) matches Ok((v, j)) ==> i < j <= toks.len(),
    decreases toks.len() - i, 0nat,
{
    let t = toks[i];
    match opener_kind(t) {
        Some(k) => {
            if depth > 0 {
                lemma_parse_elems_advances(toks, i + 1, k, (depth - 1) as nat);
            }
        },
        None => {},
    }
}

/// Reading a literal's elements stops at or before the end of the stream,
/// after the closer.
pub proof fn lemma_parse_elems_advances(toks: Seq<Seq<char>>, i: int, k: Opener, depth: nat)
    requires
        0 <= i,
    ensures
        spec_parse_elems(toks, i, k, depth) matches Ok((es, j)) ==> i < j <= toks.len(),
    decreases toks.len() - i, 1nat,
{
    if i >= toks.len() {
    } else if is_closer_tok(toks[i]) {
    } else {
        lemma_parse_value_advances(toks, i, depth);
        match spec_parse_value(toks, i, depth) {
            Ok((v, j)) => {
                assert(next_cursor(i, j, toks.len() as int) == j);
                lemma_parse_elems_advances(toks, j, k, depth);
            },
            Err(e) => {},
        }
    }
}

/// Map literals are assembled with pairwise distinct keys: whatever
/// elements a `{ … }` literal held, entries that assemble successfully
/// extend distinct accumulated keys with distinct keys.
pub proof fn lemma_entries_keys_unique(
    elems: Seq<ValueModel>,
    acc: Seq<(AtomModel, ValueModel)>,
    ps: Seq<(AtomModel, ValueModel)>,
)
    requires
        build_entries(elems, acc) == Ok::<Seq<(AtomModel, ValueModel)>, ErrorModel>(ps),
        forall|i: int, j: int| 0 <= i < j < acc.len() ==> (#[trigger] acc[i]).0 != (
        #[trigger] acc[j]).0,
    ensures
        forall|i: int, j: int| 0 <= i < j < ps.len() ==> (#[trigger] ps[i]).0 != (
        #[trigger] ps[j]).0,
    decreases elems.len(),
{
    if elems.len() == 0 {
    } else if elems.len() == 1 {
    } else if !(elems[0] is Atom) {
    } else if has_key(acc, atom_of(elems[0])) {
    } else {
        let acc2 = acc.push((atom_of(elems[0]), elems[1]));
        assert forall|i: int, j: int| 0 <= i < j < acc2.len() implies (#[trigger] acc2[i]).0 != (
        #[trigger] acc2[j]).0 by {
            if j == acc.len() {
                assert(!(exists|x: int|
                    0 <= x < acc.len() && (#[trigger] acc[x]).0 == atom_of(elems[0])));
            }
        }
        lemma_entries_keys_unique(elems.skip(2), acc2, ps);
    }
}

/// Set literals are assembled with pairwise distinct elements.
pub proof fn lemma_set_elems_unique(elems: Seq<ValueModel>, acc: Seq<AtomModel>, xs: Seq<AtomModel>)
    requires
        build_set(elems, acc) == Ok::<Seq<AtomModel>, ErrorModel>(xs),
        forall|i: int, j: int| 0 <= i < j < acc.len() ==> acc[i] != acc[j],
    ensures
        forall|i: int, j: int| 0 <= i < j < xs.len() ==> xs[i] != xs[j],
    decreases elems.len(),
{
    if elems.len() == 0 {
    } else if !(elems[0] is Atom) {
    } else if has_elem(acc, atom_of(elems[0])) {
    } else {
        let acc2 = acc.push(atom_of(elems[0]));
        assert forall|i: int, j: int| 0 <= i < j < acc2.len() implies acc2[i] != acc2[j] by {
            if j == acc.len() {
                assert(!(exists|x: int|
                    0 <= x < acc.len() && #[trigger] acc[x] == atom_of(elems[0])));
            }
        }
        lemma_set_elems_unique(elems.drop_first(), acc2, xs);
    }
}

/// The opener a token stands for, if any.
fn opener_kind_of(t: &str) -> (r: Option<Opener>)
    ensures
        r == opener_kind(t@),
{
    let n = t.unicode_len();
    if n == 1 {
        let c = t.get_char(0);
        if c == '(' {
            Some(Opener::FormK)
        } else if c == '[' {
            Some(Opener::VectorK)
        } else if c == '{' {
            Some(Opener::MapK)
        } else {
            None
        }
    } else if n == 2 {
        let c0 = t.get_char(0);
        let c1 = t.get_char(1);
        if c0 == '\'' && c1 == '(' {
            Some(Opener::ListK)
        } else if c0 == '#' && c1 == '{' {
            Some(Opener::SetK)
        } else {
            None
        }
    } else {
        None
    }
}

/// The closing delimiter a token consists of, if any.
fn closer_tok_char(t: &str) -> (r: Option<char>)
    ensures
        match r {
            Some(c) => is_closer_tok(t@) && t@[0] == c,
            None => !is_closer_tok(t@),
        },
{
    let n = t.unicode_len();
    if n == 1 {
        let c = t.get_char(0);
        if c == ')' || c == ']' || c == '}' {
            Some(c)
        } else {
            None
        }
    } else {
        None
    }
}

fn closer_of_exec(k: Opener) -> (c: char)
    ensures
        c == closer_of(k),
{
    match k {
        Opener::FormK => ')',
        Opener::ListK => ')',
        Opener::VectorK => ']',
        Opener::MapK => '}',
        Opener::SetK => '}',
    }
}

/// Assembles the elements of a `{ … }` literal into key-value entries.
fn build_entries_exec(elems: Vec<Value>) -> (r: Result<Vec<(Atom, Value)>, RispError>)
    requires
        forall|x: int| 0 <= x < elems@.len() ==> wf_value(#[trigger] elems@[x]),
    ensures
        match r {
            Ok(ps) => build_entries(view_values(elems@), Seq::empty()) == Ok::<
                Seq<(AtomModel, ValueModel)>,
                ErrorModel,
            >(crate::value::view_entries(ps@)) && forall|x: int|
                0 <= x < ps@.len() ==> wf_atom((#[trigger] ps@[x]).0) && wf_value(ps@[x].1),
            Err(e) => build_entries(view_values(elems@), Seq::empty()) == Err::<
                Seq<(AtomModel, ValueModel)>,
                ErrorModel,
            >(e@),
        },
{
    let ghost orig = view_values(elems@);
    let mut rem = elems;
    let mut acc: Vec<(Atom, Value)> = Vec::new();
    proof {
        crate::value::lemma_view_entries(acc@);
        assert(crate::value::view_entries(acc@) =~= Seq::<(AtomModel, ValueModel)>::empty());
    }
    loop
        invariant
            orig == view_values(elems@),
            forall|x: int| 0 <= x < rem@.len() ==> wf_value(#[trigger] rem@[x]),
            forall|x: int|
                0 <= x < acc@.len() ==> wf_atom((#[trigger] acc@[x]).0) && wf_value(acc@[x].1),
            build_entries(orig, Seq::empty()) == build_entries(
                view_values(rem@),
                crate::value::view_entries(acc@),
            ),
        decreases rem@.len(),
    {
        let ghost remm = view_values(rem@);
        let ghost accm = crate::value::view_entries(acc@);
        proof {
            crate::value::lemma_view_values(rem@);
            crate::value::lemma_view_entries(acc@);
        }
        if rem.len() == 0 {
            return Ok(acc);
        }
        if rem.len() == 1 {
            proof {
                reveal_strlit("{");
                assert("{"@ =~= seq!['{']);
            }
            return Err(RispError::ParseInvalidAtom("{".to_owned()));
        }
        let kv = rem.remove(0);
        let vv = rem.remove(0);
        proof {
            assert(rem@ =~= rem@.subrange(0, rem@.len() as int));
            assert(view_values(rem@) =~= remm.skip(2)) by {
                crate::value::lemma_view_values(rem@);
                assert forall|x: int| 0 <= x < remm.skip(2).len() implies remm.skip(2)[x]
                    == view_values(rem@)[x] by {
                    let rem_now = rem@;
                    assert(remm[x + 2] == view_value(rem_now[x]));
                }
            }
        }
        let key = match kv {
            Value::Atom(a) => a,
            _ => {
                proof {
                    reveal_strlit("{");
                    assert("{"@ =~= seq!['{']);
                }
                return Err(RispError::ParseInvalidAtom("{".to_owned()));
            },
        };
        // A repeated key is invalid.
        let mut di: usize = 0;
        let mut dup = false;
        while di < acc.len()
            invariant
                0 <= di <= acc@.len(),
                wf_atom(key),
                forall|x: int|
                    0 <= x < acc@.len() ==> wf_atom((#[trigger] acc@[x]).0) && wf_value(
                        acc@[x].1,
                    ),
                dup == exists|x: int|
                    0 <= x < di && (#[trigger] crate::value::view_entries(acc@)[x]).0 == key@,
                crate::value::view_entries(acc@).len() == acc@.len(),
                forall|x: int|
                    0 <= x < acc@.len() ==> (#[trigger] crate::value::view_entries(acc@)[x]) == (
                    acc@[x].0@, view_value(acc@[x].1)),
            decreases acc@.len() - di,
        {
            if atom_eq(&acc[di].0, &key) {
                dup = true;
                proof {
                    assert((crate::value::view_entries(acc@)[di as int]).0 == key@);
                }
            }
            di += 1;
        }
        if dup {
            proof {
                reveal_strlit("{");
                assert("{"@ =~= seq!['{']);
                assert(has_key(accm, key@));
            }
            return Err(RispError::ParseInvalidAtom("{".to_owned()));
        }
        proof {
            assert(!has_key(accm, key@));
        }
        let ghost acc0 = acc@;
        acc.push((key, vv));
        proof {
            crate::value::lemma_view_entries(acc@);
            crate::value::lemma_view_entries(acc0);
            assert forall|x: int|
                0 <= x < acc@.len() implies crate::value::view_entries(acc@)[x] == accm.push(
                (key@, view_value(vv)),
            )[x] by {
                if x < acc0.len() {
                    assert(acc@[x] == acc0[x]);
                    assert(accm[x] == (acc0[x].0@, view_value(acc0[x].1)));
                } else {
                    assert(acc@[x] == (key, vv));
                }
            }
            assert(crate::value::view_entries(acc@) =~= accm.push((key@, view_value(vv))));
            assert(remm[0] == ValueModel::Atom(key@));
            assert(remm[1] == view_value(vv));
        }
    }
}

/// Assembles the elements of a `#{ … }` literal into its atom elements.
fn build_set_exec(elems: Vec<Value>) -> (r: Result<Vec<Atom>, RispError>)
    requires
        forall|x: int| 0 <= x < elems@.len() ==> wf_value(#[trigger] elems@[x]),
    ensures
        match r {
            Ok(xs) => build_set(view_values(elems@), Seq::empty()) == Ok::<
                Seq<AtomModel>,
                ErrorModel,
            >(xs@.map_values(|a: Atom| a@)) && forall|x: int|
                0 <= x < xs@.len() ==> wf_atom(#[trigger] xs@[x]),
            Err(e) => build_set(view_values(elems@), Seq::empty()) == Err::<
                Seq<AtomModel>,
                ErrorModel,
            >(e@),
        },
{
    let ghost orig = view_values(elems@);
    let mut rem = elems;
    let mut acc: Vec<Atom> = Vec::new();
    proof {
        assert(acc@.map_values(|a: Atom| a@) =~= Seq::<AtomModel>::empty());
    }
    loop
        invariant
            orig == view_values(elems@),
            forall|x: int| 0 <= x < rem@.len() ==> wf_value(#[trigger] rem@[x]),
            forall|x: int| 0 <= x < acc@.len() ==> wf_atom(#[trigger] acc@[x]),
            build_set(orig, Seq::empty()) == build_set(
                view_values(rem@),
                acc@.map_values(|a: Atom| a@),
            ),
        decreases rem@.len(),
    {
        let ghost remm = view_values(rem@);
        let ghost accm = acc@.map_values(|a: Atom| a@);
        proof {
            crate::value::lemma_view_values(rem@);
        }
        if rem.len() == 0 {
            return Ok(acc);
        }
        let xv = rem.remove(0);
        proof {
            assert(view_values(rem@) =~= remm.drop_first()) by {
                crate::value::lemma_view_values(rem@);
                assert forall|x: int| 0 <= x < remm.drop_first().len() implies remm.drop_first()[x]
                    == view_values(rem@)[x] by {
                    let rem_now = rem@;
                    assert(remm[x + 1] == view_value(rem_now[x]));
                }
            }
        }
        let xa = match xv {
            Value::Atom(a) => a,
            _ => {
                proof {
                    reveal_strlit("#{");
                    assert("#{"@ =~= seq!['#', '{']);
                }
                return Err(RispError::ParseInvalidAtom("#{".to_owned()));
            },
        };
        let mut di: usize = 0;
        let mut dup = false;
        while di < acc.len()
            invariant
                0 <= di <= acc@.len(),
                wf_atom(xa),
                forall|x: int| 0 <= x < acc@.len() ==> wf_atom(#[trigger] acc@[x]),
                dup == exists|x: int| 0 <= x < di && #[trigger] acc@[x]@ == xa@,
            decreases acc@.len() - di,
        {
            if atom_eq(&acc[di], &xa) {
                dup = true;
            }
            di += 1;
        }
        if dup {
            proof {
                reveal_strlit("#{");
                assert("#{"@ =~= seq!['#', '{']);
                assert(has_elem(accm, xa@)) by {
                    let w = choose|x: int| 0 <= x < di && #[trigger] acc@[x]@ == xa@;
                    assert(accm[w] == xa@);
                }
            }
            return Err(RispError::ParseInvalidAtom("#{".to_owned()));
        }
        let ghost acc0 = acc@;
        acc.push(xa);
        proof {
            assert(!has_elem(accm, remm[0]->Atom_0)) by {
                if has_elem(accm, remm[0]->Atom_0) {
                    let w = choose|x: int|
                        0 <= x < accm.len() && #[trigger] accm[x] == remm[0]->Atom_0;
                    assert(acc0[w]@ == xa@);
                }
            }
            assert(acc@.map_values(|a: Atom| a@) =~= accm.push(xa@));
            assert(remm[0] == ValueModel::Atom(xa@));
        }
    }
}


/// Builds the sequence value of kind `k` from its collected elements.
fn finish_sequence(k: Opener, elems: Vec<Value>) -> (r: Result<Value, RispError>)
    requires
        forall|x: int| 0 <= x < elems@.len() ==> wf_value(#[trigger] elems@[x]),
    ensures
        match r {
            Ok(v) => finish_seq(k, view_values(elems@)) == Ok::<ValueModel, ErrorModel>(v@)
                && wf_value(v),
            Err(e) => finish_seq(k, view_values(elems@)) == Err::<ValueModel, ErrorModel>(e@),
        },
{
    match k {
        Opener::FormK => Ok(Value::Sequence(Sequence::Form(elems))),
        Opener::ListK => Ok(Value::Sequence(Sequence::List(elems))),
        Opener::VectorK => Ok(Value::Sequence(Sequence::Vector(elems))),
        Opener::MapK => match build_entries_exec(elems) {
            Ok(ps) => Ok(Value::Sequence(Sequence::MapLit(ps))),
            Err(e) => Err(e),
        },
        Opener::SetK => match build_set_exec(elems) {
            Ok(xs) => Ok(Value::Sequence(Sequence::SetLit(xs))),
            Err(e) => Err(e),
        },
    }
}

/// Reads one value at token position `i`.
fn parse_value_at(toks: &Vec<String>, i: usize, depth: usize) -> (r: Result<
    (Value, usize),
    RispError,
>)
    requires
        i < toks@.len(),
    ensures
        match r {
            Ok(p) => spec_parse_value(token_models(toks@), i as int, depth as nat) == Ok::<
                (ValueModel, int),
                ErrorModel,
            >((p.0@, p.1 as int)) && i < p.1 <= toks@.len() && wf_value(p.0),
            Err(e) => spec_parse_value(token_models(toks@), i as int, depth as nat) == Err::<
                (ValueModel, int),
                ErrorModel,
            >(e@),
        },
    decreases toks@.len() - i, 0nat,
{
    let ghost tms = token_models(toks@);
    let n = toks.len();
    proof {
        assert(tms[i as int] == toks@[i as int]@);
        assert(i < n);
    }
    let t = &toks[i];
    match opener_kind_of(t.as_str()) {
        Some(k) => {
            if depth == 0 {
                Err(RispError::ParseDepthExceeded)
            } else {
                match parse_elems_until(toks, i + 1, k, depth - 1) {
                    Ok((elems, j)) => match finish_sequence(k, elems) {
                        Ok(v) => Ok((v, j)),
                        Err(e) => Err(e),
                    },
                    Err(e) => Err(e),
                }
            }
        },
        None => {
            match closer_tok_char(t.as_str()) {
                Some(_) => Err(RispError::ParseUnexpectedClose(t.clone())),
                None => match Atom::from_str(t.as_str()) {
                    Ok(a) => Ok((Value::Atom(a), i + 1)),
                    Err(e) => Err(e),
                },
            }
        },
    }
}

/// Reads the elements of one open literal of kind `k`, starting at `i`,
/// until its matching closer.
fn parse_elems_until(toks: &Vec<String>, i: usize, k: Opener, depth: usize) -> (r: Result<
    (Vec<Value>, usize),
    RispError,
>)
    requires
        i <= toks@.len(),
    ensures
        match r {
            Ok(p) => spec_parse_elems(token_models(toks@), i as int, k, depth as nat) == Ok::<
                (Seq<ValueModel>, int),
                ErrorModel,
            >((view_values(p.0@), p.1 as int)) && i < p.1 <= toks@.len() && forall|x: int|
                0 <= x < p.0@.len() ==> wf_value(#[trigger] p.0@[x]),
            Err(e) => spec_parse_elems(token_models(toks@), i as int, k, depth as nat) == Err::<
                (Seq<ValueModel>, int),
                ErrorModel,
            >(e@),
        },
    decreases toks@.len() - i, 1nat,
{
    let ghost tms = token_models(toks@);
    if i >= toks.len() {
        return Err(RispError::ParseUnexpectedEnd);
    }
    proof {
        assert(tms[i as int] == toks@[i as int]@);
    }
    let t = &toks[i];
    match closer_tok_char(t.as_str()) {
        Some(c) => {
            if c == closer_of_exec(k) {
                let vs: Vec<Value> = Vec::new();
                proof {
                    assert(view_values(vs@) =~= Seq::<ValueModel>::empty());
                }
                Ok((vs, i + 1))
            } else {
                Err(RispError::ParseUnexpectedClose(t.clone()))
            }
        },
        None => {
            match parse_value_at(toks, i, depth) {
                Err(e) => Err(e),
                Ok((v, j)) => {
                    proof {
                        lemma_parse_value_advances(tms, i as int, depth as nat);
                        assert(next_cursor(i as int, j as int, tms.len() as int) == j as int);
                    }
                    match parse_elems_until(toks, j, k, depth) {
                        Err(e) => Err(e),
                        Ok((mut rest, j2)) => {
                            let ghost rest0 = rest@;
                            let ghost vm = v@;
                            rest.insert(0, v);
                            proof {
                                assert(rest@ =~= seq![rest@[0]] + rest0);
                                assert(view_values(rest@) =~= seq![vm] + view_values(rest0)) by {
                                    crate::value::lemma_view_values(rest@);
                                    crate::value::lemma_view_values(rest0);
                                    assert(rest@[0]@ == vm);
                                    assert forall|x: int|
                                        0 <= x < rest@.len() implies view_values(rest@)[x] == (
                                    seq![vm] + view_values(rest0))[x] by {
                                        if x > 0 {
                                            assert(rest@[x] == rest0[x - 1]);
                                        }
                                    }
                                }
                            }
                            Ok((rest, j2))
                        },
                    }
                },
            }
        },
    }
}

/// Reads every top-level value of the token stream, starting at `i`.
pub fn parse_top_at(toks: &Vec<String>, i: usize, depth: usize) -> (r: Result<Vec<Value>, RispError>)
    requires
        i <= toks@.len(),
    ensures
        match r {
            Ok(vs) => spec_parse_top(token_models(toks@), i as int, depth as nat) == Ok::<
                Seq<ValueModel>,
                ErrorModel,
            >(view_values(vs@)) && forall|x: int|
                0 <= x < vs@.len() ==> wf_value(#[trigger] vs@[x]),
            Err(e) => spec_parse_top(token_models(toks@), i as int, depth as nat) == Err::<
                Seq<ValueModel>,
                ErrorModel,
            >(e@),
        },
    decreases toks@.len() - i, 2nat,
{
    let ghost tms = token_models(toks@);
    if i >= toks.len() {
        let vs: Vec<Value> = Vec::new();
        proof {
            assert(view_values(vs@) =~= Seq::<ValueModel>::empty());
        }
        return Ok(vs);
    }
    proof {
        assert(tms[i as int] == toks@[i as int]@);
    }
    let t = &toks[i];
    match closer_tok_char(t.as_str()) {
        Some(_) => Err(RispError::ParseUnexpectedClose(t.clone())),
        None => {
            match parse_value_at(toks, i, depth) {
                Err(e) => Err(e),
                Ok((v, j)) => {
                    proof {
                        lemma_parse_value_advances(tms, i as int, depth as nat);
                        assert(next_cursor(i as int, j as int, tms.len() as int) == j as int);
                    }
                    match parse_top_at(toks, j, depth) {
                        Err(e) => Err(e),
                        Ok(mut rest) => {
                            let ghost rest0 = rest@;
                            let ghost vm = v@;
                            rest.insert(0, v);
                            proof {
                                assert(rest@ =~= seq![rest@[0]] + rest0);
                                assert(view_values(rest@) =~= seq![vm] + view_values(rest0)) by {
                                    crate::value::lemma_view_values(rest@);
                                    crate::value::lemma_view_values(rest0);
                                    assert(rest@[0]@ == vm);
                                    assert forall|x: int|
                                        0 <= x < rest@.len() implies view_values(rest@)[x] == (
                                    seq![vm] + view_values(rest0))[x] by {
                                        if x > 0 {
                                            assert(rest@[x] == rest0[x - 1]);
                                        }
                                    }
                                }
                            }
                            Ok(rest)
                        },
                    }
                },
            }
        },
    }
}

/// The model of an appendable sequence with parsed elements appended.
pub open spec fn append_elems(m: SequenceModel, es: Seq<ValueModel>) -> SequenceModel {
    match m {
        SequenceModel::Form(xs) => SequenceModel::Form(xs + es),
        SequenceModel::List(xs) => SequenceModel::List(xs + es),
        SequenceModel::Vector(xs) => SequenceModel::Vector(xs + es),
        m2 => m2,
    }
}

/// Steps through the tokens and parses them into values, appended in order
/// into the enclosing sequence value, which is returned when the stream is
/// exhausted. Nesting deeper than `max_depth` is rejected.
pub fn parse(tokens: &Vec<String>, enclosing: Value, max_depth: usize) -> (r: Result<
    Value,
    RispError,
>)
    requires
        enclosing.appendable(),
    ensures
        match r {
            Ok(v) => spec_parse_top(token_models(tokens@), 0, max_depth as nat) matches Ok(es)
                && (enclosing matches Value::Sequence(s0) ==> v@ == ValueModel::Sequence(
                append_elems(s0@, es),
            )),
            Err(e) => spec_parse_top(token_models(tokens@), 0, max_depth as nat) == Err::<
                Seq<ValueModel>,
                ErrorModel,
            >(e@),
        },
{
    let mut vs = match parse_top_at(tokens, 0, max_depth) {
        Ok(vs) => vs,
        Err(e) => {
            return Err(e);
        },
    };
    let ghost esm = view_values(vs@);
    let ghost s0m = view_sequence(enclosing->Sequence_0);
    let mut out = enclosing;
    let ghost mut idx: int = 0;
    proof {
        crate::value::lemma_view_values(vs@);
        assert(view_values(vs@) =~= esm.skip(0));
        assert(append_elems(s0m, esm.take(0)) =~~= s0m);
    }
    while vs.len() > 0
        invariant
            0 <= idx <= esm.len(),
            view_values(vs@) == esm.skip(idx),
            vs@.len() == esm.len() - idx,
            out matches Value::Sequence(s) && s@ == append_elems(s0m, esm.take(idx)),
            out.appendable(),
        decreases vs@.len(),
    {
        let ghost vs_before = vs@;
        proof {
            crate::value::lemma_view_values(vs_before);
        }
        let v = vs.remove(0);
        let ghost vm = v@;
        proof {
            assert(vm == esm.skip(idx)[0]);
            assert(esm.skip(idx)[0] == esm[idx]);
            assert(view_values(vs@) =~= esm.skip(idx + 1)) by {
                crate::value::lemma_view_values(vs@);
                assert forall|x: int| 0 <= x < vs@.len() implies view_values(vs@)[x] == esm.skip(
                    idx + 1,
                )[x] by {
                    assert(vs@[x] == vs_before[x + 1]);
                    assert(view_values(vs_before)[x + 1] == view_value(vs_before[x + 1]));
                }
            }
        }
        out.add(v);
        proof {
            let s_now = out->Sequence_0;
            assert(append_elems(s0m, esm.take(idx + 1)) =~~= s_now@) by {
                assert(esm.take(idx + 1) =~= esm.take(idx).push(esm[idx]));
                match s0m {
                    SequenceModel::Form(xs) => {
                        assert(xs + esm.take(idx + 1) =~= (xs + esm.take(idx)).push(esm[idx]));
                    },
                    SequenceModel::List(xs) => {
                        assert(xs + esm.take(idx + 1) =~= (xs + esm.take(idx)).push(esm[idx]));
                    },
                    SequenceModel::Vector(xs) => {
                        assert(xs + esm.take(idx + 1) =~= (xs + esm.take(idx)).push(esm[idx]));
                    },
                    _ => {},
                }
            }
            idx = idx + 1;
        }
    }
    proof {
        assert(esm.take(idx) =~= esm);
    }
    Ok(out)
}

} // verus!
