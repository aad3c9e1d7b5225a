//! Reader and evaluation core of a minimal Lisp-family interactive language:
//! a tokenizer, a recursive-descent parser producing a tagged value tree, a
//! small built-in function namespace, and an evaluator that walks the tree.

mod atoms;
mod errors;
mod eval;
mod laws;
mod lexer;
mod namespace;
mod rational;
mod reader;
mod value;

pub use atoms::spec_classify;
pub use errors::ErrorModel;
pub use errors::RispError;
pub use lexer::tokenize;
pub use lexer::spec_tokenize;
pub use eval::apply_builtin;
pub use eval::read_eval;
pub use eval::spec_apply;
pub use eval::spec_eval;
pub use eval::spec_eval_args;
pub use eval::spec_read_eval;
pub use laws::lemma_atoms_self_evaluate;
pub use laws::lemma_non_symbol_operator_not_callable;
pub use laws::lemma_quoted_sequences_self_evaluate;
pub use laws::lemma_unbound_operator_fails;
pub use namespace::Builtin;
pub use namespace::Namespace;
pub use namespace::spec_lookup;
pub use reader::Opener;
pub use reader::parse;
pub use reader::parse_top_at;
pub use reader::lemma_entries_keys_unique;
pub use reader::lemma_set_elems_unique;
pub use reader::append_elems;
pub use reader::spec_parse_top;
pub use reader::spec_parse_value;
pub use rational::Rational;
pub use rational::canon;
pub use rational::canonical_pair;
pub use rational::gcd;
pub use value::Atom;
pub use value::AtomModel;
pub use value::Sequence;
pub use value::SequenceModel;
pub use value::Value;
pub use value::ValueModel;
