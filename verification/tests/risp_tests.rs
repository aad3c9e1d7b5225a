use risp::{
    apply_builtin, parse, parse_top_at, read_eval, tokenize, Atom, Builtin, Namespace, Rational,
    RispError, Sequence, Value,
};

const DEPTH: usize = 64;

fn num(n: u64) -> Value {
    Value::Atom(Atom::Number(Rational::from_integer(false, n)))
}

fn sym(s: &str) -> Value {
    Value::Atom(Atom::Symbol(s.to_string()))
}

fn list(elems: Vec<Value>) -> Value {
    Value::Sequence(Sequence::List(elems))
}

fn form(elems: Vec<Value>) -> Value {
    Value::Sequence(Sequence::Form(elems))
}

fn toks(src: &str) -> Vec<String> {
    tokenize(src)
}

#[test]
fn tokenize_form() {
    assert_eq!(toks("(+ 1 2)"), vec!["(", "+", "1", "2", ")"]);
}

#[test]
fn tokenize_quoted_list() {
    assert_eq!(toks("'(1 2 3)"), vec!["'(", "1", "2", "3", ")"]);
}

#[test]
fn tokenize_adjacent_delimiters() {
    assert_eq!(toks("(conj '(1) [2] {3 4} #{5})"), vec![
        "(", "conj", "'(", "1", ")", "[", "2", "]", "{", "3", "4", "}", "#{", "5", "}", ")"
    ]);
}

#[test]
fn tokenize_string_literal_keeps_spaces() {
    assert_eq!(toks("(println \"hi there\")"), vec!["(", "println", "\"hi there\"", ")"]);
}

#[test]
fn tokenize_unterminated_string_is_one_token() {
    assert_eq!(toks("\"abc"), vec!["\"abc"]);
    assert_eq!(toks("(\"abc)"), vec!["(", "\"abc", ")"]);
}

#[test]
fn tokenize_empty_and_whitespace() {
    assert_eq!(toks(""), Vec::<String>::new());
    assert_eq!(toks("  \t \r\n "), Vec::<String>::new());
}

#[test]
fn tokenize_hash_paren_is_single_token() {
    assert_eq!(toks("#("), vec!["#("]);
}

#[test]
fn parse_println_form() {
    let vals = parse_top_at(&toks("(println 1 2)"), 0, DEPTH).unwrap();
    assert_eq!(vals, vec![form(vec![sym("println"), num(1), num(2)])]);
}

#[test]
fn parse_into_enclosing_form() {
    let enclosing = Value::Sequence(Sequence::Form(Vec::new()));
    let v = parse(&toks("1 2"), enclosing, DEPTH).unwrap();
    assert_eq!(v, form(vec![num(1), num(2)]));
}

#[test]
fn parse_missing_closer_fails() {
    assert_eq!(parse_top_at(&toks("(1 2"), 0, DEPTH), Err(RispError::ParseUnexpectedEnd));
}

#[test]
fn parse_unexpected_close_fails() {
    assert_eq!(
        parse_top_at(&toks(")"), 0, DEPTH),
        Err(RispError::ParseUnexpectedClose(")".to_string()))
    );
}

#[test]
fn parse_mismatched_closer_fails() {
    assert_eq!(
        parse_top_at(&toks("(1]"), 0, DEPTH),
        Err(RispError::ParseUnexpectedClose("]".to_string()))
    );
}

#[test]
fn parse_depth_ceiling() {
    assert_eq!(parse_top_at(&toks("((((1))))"), 0, 2), Err(RispError::ParseDepthExceeded));
    assert!(parse_top_at(&toks("((((1))))"), 0, 4).is_ok());
}

#[test]
fn parse_vector_literal() {
    let vals = parse_top_at(&toks("[1 2]"), 0, DEPTH).unwrap();
    assert_eq!(vals, vec![Value::Sequence(Sequence::Vector(vec![num(1), num(2)]))]);
}

#[test]
fn parse_map_literal() {
    let vals = parse_top_at(&toks("{:a 1 :b 2}"), 0, DEPTH).unwrap();
    assert_eq!(
        vals,
        vec![Value::Sequence(Sequence::MapLit(vec![
            (Atom::Keyword(":a".to_string()), num(1)),
            (Atom::Keyword(":b".to_string()), num(2)),
        ]))]
    );
}

#[test]
fn parse_set_literal() {
    let vals = parse_top_at(&toks("#{1 2}"), 0, DEPTH).unwrap();
    assert_eq!(
        vals,
        vec![Value::Sequence(Sequence::SetLit(vec![
            Atom::Number(Rational::from_integer(false, 1)),
            Atom::Number(Rational::from_integer(false, 2)),
        ]))]
    );
}

#[test]
fn parse_map_odd_elements_fails() {
    assert_eq!(
        parse_top_at(&toks("{:a}"), 0, DEPTH),
        Err(RispError::ParseInvalidAtom("{".to_string()))
    );
}

#[test]
fn parse_map_duplicate_key_fails() {
    assert_eq!(
        parse_top_at(&toks("{:a 1 :a 2}"), 0, DEPTH),
        Err(RispError::ParseInvalidAtom("{".to_string()))
    );
}

#[test]
fn parse_map_sequence_key_fails() {
    assert_eq!(
        parse_top_at(&toks("{(1 2) 3}"), 0, DEPTH),
        Err(RispError::ParseInvalidAtom("{".to_string()))
    );
}

#[test]
fn parse_set_duplicate_fails() {
    assert_eq!(
        parse_top_at(&toks("#{1 1}"), 0, DEPTH),
        Err(RispError::ParseInvalidAtom("#{".to_string()))
    );
}

#[test]
fn atom_integer() {
    assert_eq!(Atom::from_str("42"), Ok(Atom::Number(Rational::from_integer(false, 42))));
    assert_eq!(Atom::from_str("-7"), Ok(Atom::Number(Rational::from_integer(true, 7))));
    assert_eq!(Atom::from_str("+5"), Ok(Atom::Number(Rational::from_integer(false, 5))));
    assert_eq!(Atom::from_str("007"), Ok(Atom::Number(Rational::from_integer(false, 7))));
}

#[test]
fn atom_decimal() {
    assert_eq!(Atom::from_str("3.5"), Ok(Atom::Number(Rational::new(false, 7, 2))));
    assert_eq!(Atom::from_str("1.50"), Ok(Atom::Number(Rational::new(false, 3, 2))));
    assert_eq!(Atom::from_str("-0.25"), Ok(Atom::Number(Rational::new(true, 1, 4))));
    assert_eq!(Atom::from_str(".5"), Ok(Atom::Number(Rational::new(false, 1, 2))));
    assert_eq!(Atom::from_str("3."), Ok(Atom::Number(Rational::from_integer(false, 3))));
}

#[test]
fn atom_keyword() {
    assert_eq!(Atom::from_str(":foo"), Ok(Atom::Keyword(":foo".to_string())));
}

#[test]
fn atom_string() {
    assert_eq!(Atom::from_str("\"hi\""), Ok(Atom::Str("hi".to_string())));
    assert_eq!(Atom::from_str("\"\""), Ok(Atom::Str(String::new())));
}

#[test]
fn atom_symbol() {
    assert_eq!(Atom::from_str("bar"), Ok(Atom::Symbol("bar".to_string())));
    assert_eq!(Atom::from_str("#("), Ok(Atom::Symbol("#(".to_string())));
    assert_eq!(Atom::from_str("."), Ok(Atom::Symbol(".".to_string())));
    assert_eq!(Atom::from_str("1e5"), Ok(Atom::Symbol("1e5".to_string())));
    assert_eq!(
        Atom::from_str("99999999999999999999999999999"),
        Ok(Atom::Symbol("99999999999999999999999999999".to_string()))
    );
}

#[test]
fn atom_malformed_string_fails() {
    assert_eq!(
        Atom::from_str("\"abc"),
        Err(RispError::TokenizeMalformedLiteral("\"abc".to_string()))
    );
    assert_eq!(Atom::from_str("\""), Err(RispError::TokenizeMalformedLiteral("\"".to_string())));
}

#[test]
fn rational_reduction_and_parts() {
    let r = Rational::new(true, 35, 10);
    assert!(r.is_negative());
    assert_eq!(r.numerator_magnitude(), 7);
    assert_eq!(r.denominator(), 2);
    assert_eq!(Rational::new(true, 0, 5), Rational::from_integer(false, 0));
}

#[test]
fn namespace_lookup() {
    let ns = Namespace::new();
    assert_eq!(ns.lookup("println"), Some(Builtin::Println));
    assert_eq!(ns.lookup("conj"), Some(Builtin::Conj));
    assert_eq!(ns.lookup("+"), None);
}

#[test]
fn namespace_insert_extends() {
    let mut ns = Namespace::new();
    ns.insert("emit".to_string(), Builtin::Println);
    assert_eq!(ns.lookup("emit"), Some(Builtin::Println));
    // Lookup takes the first entry: an existing name keeps its callable.
    ns.insert("conj".to_string(), Builtin::Println);
    assert_eq!(ns.lookup("conj"), Some(Builtin::Conj));
}

#[test]
fn conj_appends_to_list() {
    let mut out = Vec::new();
    let r = apply_builtin(Builtin::Conj, vec![list(vec![num(1), num(2)]), num(3)], &mut out);
    assert_eq!(r, Ok(list(vec![num(1), num(2), num(3)])));
    assert!(out.is_empty());
}

#[test]
fn conj_arity_errors() {
    let mut out = Vec::new();
    assert_eq!(
        apply_builtin(Builtin::Conj, vec![num(1)], &mut out),
        Err(RispError::ArityError { expected: 2, found: 1 })
    );
    assert_eq!(
        apply_builtin(Builtin::Conj, vec![num(1), num(2), num(3)], &mut out),
        Err(RispError::ArityError { expected: 2, found: 3 })
    );
}

#[test]
fn conj_on_non_list_unsupported() {
    let mut out = Vec::new();
    assert_eq!(
        apply_builtin(Builtin::Conj, vec![num(1), num(2)], &mut out),
        Err(RispError::UnsupportedOperationError)
    );
    assert_eq!(
        apply_builtin(
            Builtin::Conj,
            vec![Value::Sequence(Sequence::Vector(vec![num(1)])), num(2)],
            &mut out
        ),
        Err(RispError::UnsupportedOperationError)
    );
}

#[test]
fn quoted_list_evaluates_to_itself() {
    let ns = Namespace::new();
    let mut out = Vec::new();
    let v = list(vec![num(7)]);
    assert_eq!(v.eval(&ns, &mut out), Ok(list(vec![num(7)])));
    // Elements are not evaluated: an unbound symbol inside stays put.
    let q = list(vec![sym("foo")]);
    assert_eq!(q.eval(&ns, &mut out), Ok(list(vec![sym("foo")])));
    assert!(out.is_empty());
}

#[test]
fn unbound_symbol_fails() {
    let ns = Namespace::new();
    let mut out = Vec::new();
    let v = form(vec![sym("foo")]);
    assert_eq!(v.eval(&ns, &mut out), Err(RispError::UnboundSymbolError("foo".to_string())));
}

#[test]
fn non_callable_head_fails() {
    let ns = Namespace::new();
    let mut out = Vec::new();
    let v = form(vec![num(42), num(1)]);
    assert_eq!(v.eval(&ns, &mut out), Err(RispError::NotCallableError));
}

#[test]
fn empty_form_not_callable() {
    let ns = Namespace::new();
    let mut out = Vec::new();
    assert_eq!(form(Vec::new()).eval(&ns, &mut out), Err(RispError::NotCallableError));
}

#[test]
fn bound_symbol_evaluates_to_itself() {
    let ns = Namespace::new();
    let mut out = Vec::new();
    assert_eq!(sym("println").eval(&ns, &mut out), Ok(sym("println")));
}

#[test]
fn println_logs_its_arguments() {
    let ns = Namespace::new();
    let mut out = Vec::new();
    let r = read_eval("(println 1 2)", &ns, DEPTH, &mut out);
    assert_eq!(r, Ok(vec![Value::Atom(Atom::Nil)]));
    assert_eq!(out, vec![list(vec![num(1), num(2)])]);
}

#[test]
fn nested_println_logs_in_order() {
    let ns = Namespace::new();
    let mut out = Vec::new();
    let r = read_eval("(println (println 1))", &ns, DEPTH, &mut out);
    assert_eq!(r, Ok(vec![Value::Atom(Atom::Nil)]));
    assert_eq!(out, vec![list(vec![num(1)]), list(vec![Value::Atom(Atom::Nil)])]);
}

#[test]
fn read_eval_unbound_plus() {
    let ns = Namespace::new();
    let mut out = Vec::new();
    assert_eq!(
        read_eval("(+ 1 2)", &ns, DEPTH, &mut out),
        Err(RispError::UnboundSymbolError("+".to_string()))
    );
}

#[test]
fn read_eval_conj_quoted_list() {
    let ns = Namespace::new();
    let mut out = Vec::new();
    let r = read_eval("(conj '(1 2) 3)", &ns, DEPTH, &mut out);
    assert_eq!(r, Ok(vec![list(vec![num(1), num(2), num(3)])]));
}

#[test]
fn read_eval_missing_closer() {
    let ns = Namespace::new();
    let mut out = Vec::new();
    assert_eq!(read_eval("(1 2", &ns, DEPTH, &mut out), Err(RispError::ParseUnexpectedEnd));
}

#[test]
fn read_eval_multiple_top_level_forms() {
    let ns = Namespace::new();
    let mut out = Vec::new();
    let r = read_eval("1 :a \"s\"", &ns, DEPTH, &mut out);
    assert_eq!(
        r,
        Ok(vec![
            num(1),
            Value::Atom(Atom::Keyword(":a".to_string())),
            Value::Atom(Atom::Str("s".to_string())),
        ])
    );
}

#[test]
fn sequence_add_and_conj() {
    let mut s = Sequence::List(vec![num(1)]);
    s.conj(num(2));
    assert_eq!(s, Sequence::List(vec![num(1), num(2)]));
    let mut f = Sequence::Form(Vec::new());
    f.add(sym("x"));
    assert_eq!(f, Sequence::Form(vec![sym("x")]));
}

#[test]
fn value_add_appends() {
    let mut v = Value::Sequence(Sequence::Vector(vec![num(1)]));
    v.add(num(2));
    assert_eq!(v, Value::Sequence(Sequence::Vector(vec![num(1), num(2)])));
}

#[test]
fn quoted_vector_map_set_self_evaluate() {
    let ns = Namespace::new();
    let mut out = Vec::new();
    let v = Value::Sequence(Sequence::Vector(vec![num(1)]));
    assert_eq!(v.eval(&ns, &mut out), Ok(Value::Sequence(Sequence::Vector(vec![num(1)]))));
    let m = Value::Sequence(Sequence::MapLit(vec![(Atom::Keyword(":a".to_string()), num(1))]));
    assert_eq!(
        m.eval(&ns, &mut out),
        Ok(Value::Sequence(Sequence::MapLit(vec![(
            Atom::Keyword(":a".to_string()),
            num(1)
        )])))
    );
    let s = Value::Sequence(Sequence::SetLit(vec![Atom::Nil]));
    assert_eq!(s.eval(&ns, &mut out), Ok(Value::Sequence(Sequence::SetLit(vec![Atom::Nil]))));
    assert!(out.is_empty());
}
