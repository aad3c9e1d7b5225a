//! The lexer: source text to an ordered sequence of token spans.
//!
//! Token grammar, longest match, in this precedence at each scan position:
//! the two-character delimiters `'(`, `#(` and `#{`; the one-character
//! delimiters `(`, `)`, `[`, `]`, `{`, `}`; a string literal `"…"` that does
//! not cross a closing delimiter; and otherwise a maximal run of characters
//! containing no whitespace, no `"` and no closing delimiter. A `"` with no
//! matching close before a closing delimiter or the end of input is
//! surfaced as an ordinary atom token beginning with `"`, to be rejected by
//! the atom classifier. Whitespace separates tokens and is discarded.

use vstd::prelude::*;

verus! {

/// Whitespace that separates tokens.
pub open spec fn is_ws(c: char) -> bool {
    c == ' ' || c == '\t' || c == '\n' || c == '\r'
}

/// The closing delimiters; an atom run or string literal never crosses one.
pub open spec fn is_closer(c: char) -> bool {
    c == ')' || c == ']' || c == '}'
}

/// Characters an atom token may contain: anything but whitespace, `"` and a
/// closing delimiter. Opening delimiters may appear inside a run.
pub open spec fn is_atom_char(c: char) -> bool {
    !is_ws(c) && c != '"' && !is_closer(c)
}

/// The end of the maximal run of atom characters starting at `i`.
pub open spec fn atom_run_end(s: Seq<char>, i: int) -> int
    recommends
        0 <= i <= s.len(),
    decreases s.len() - i,
    when 0 <= i <= s.len()
{
    if i < s.len() && is_atom_char(s[i]) {
        atom_run_end(s, i + 1)
    } else {
        i
    }
}

/// The first position at or after `i` holding `"`, a closing delimiter, or
/// the end of input: where a string literal opened just before `i` ends.
pub open spec fn string_scan(s: Seq<char>, i: int) -> int
    recommends
        0 <= i <= s.len(),
    decreases s.len() - i,
    when 0 <= i <= s.len()
{
    if i < s.len() && s[i] != '"' && !is_closer(s[i]) {
        string_scan(s, i + 1)
    } else {
        i
    }
}

pub proof fn lemma_atom_run_end(s: Seq<char>, i: int)
    requires
        0 <= i <= s.len(),
    ensures
        i <= atom_run_end(s, i) <= s.len(),
    decreases s.len() - i,
{
    if i < s.len() && is_atom_char(s[i]) {
        lemma_atom_run_end(s, i + 1);
    }
}

pub proof fn lemma_string_scan(s: Seq<char>, i: int)
    requires
        0 <= i <= s.len(),
    ensures
        i <= string_scan(s, i) <= s.len(),
    decreases s.len() - i,
{
    if i < s.len() && s[i] != '"' && !is_closer(s[i]) {
        lemma_string_scan(s, i + 1);
    }
}

/// A position bounding a run of atom characters is the run's end.
pub proof fn lemma_atom_run_end_is(s: Seq<char>, i: int, j: int)
    requires
        0 <= i <= j <= s.len(),
        forall|k: int| i <= k < j ==> is_atom_char(#[trigger] s[k]),
        j == s.len() || !is_atom_char(s[j]),
    ensures
        atom_run_end(s, i) == j,
    decreases j - i,
{
    if i < j {
        lemma_atom_run_end_is(s, i + 1, j);
    }
}

/// A position bounding a scan of string-body characters is the scan's end.
pub proof fn lemma_string_scan_is(s: Seq<char>, i: int, j: int)
    requires
        0 <= i <= j <= s.len(),
        forall|k: int| i <= k < j ==> (#[trigger] s[k]) != '"' && !is_closer(s[k]),
        j == s.len() || s[j] == '"' || is_closer(s[j]),
    ensures
        string_scan(s, i) == j,
    decreases j - i,
{
    if i < j {
        lemma_string_scan_is(s, i + 1, j);
    }
}

/// The token spans of the source from position `i` on.
pub open spec fn spec_tokenize(s: Seq<char>, i: int) -> Seq<Seq<char>>
    recommends
        0 <= i <= s.len(),
    decreases s.len() - i,
    when 0 <= i <= s.len()
    via spec_tokenize_decreases
{
    if i >= s.len() {
        Seq::empty()
    } else if is_ws(s[i]) {
        spec_tokenize(s, i + 1)
    } else if s[i] == '\'' && i + 1 < s.len() && s[i + 1] == '(' {
        seq![s.subrange(i, i + 2)] + spec_tokenize(s, i + 2)
    } else if s[i] == '#' && i + 1 < s.len() && (s[i + 1] == '(' || s[i + 1] == '{') {
        seq![s.subrange(i, i + 2)] + spec_tokenize(s, i + 2)
    } else if s[i] == '(' || s[i] == '[' || s[i] == '{' || is_closer(s[i]) {
        seq![s.subrange(i, i + 1)] + spec_tokenize(s, i + 1)
    } else if s[i] == '"' {
        let j = string_scan(s, i + 1);
        if j < s.len() && s[j] == '"' {
            seq![s.subrange(i, j + 1)] + spec_tokenize(s, j + 1)
        } else {
            let k = atom_run_end(s, i + 1);
            seq![s.subrange(i, k)] + spec_tokenize(s, k)
        }
    } else {
        let k = atom_run_end(s, i + 1);
        seq![s.subrange(i, k)] + spec_tokenize(s, k)
    }
}

#[via_fn]
proof fn spec_tokenize_decreases(s: Seq<char>, i: int) {
    if 0 <= i && i + 1 <= s.len() {
        lemma_atom_run_end(s, i + 1);
        lemma_string_scan(s, i + 1);
    }
}

/// The views of a vector of token strings.
pub open spec fn token_models(ts: Seq<String>) -> Seq<Seq<char>> {
    ts.map_values(|t: String| t@)
}

pub proof fn lemma_token_models_push(ts: Seq<String>, t: String)
    ensures
        token_models(ts.push(t)) == token_models(ts).push(t@),
{
    assert(token_models(ts.push(t)) =~= token_models(ts).push(t@));
}

fn ws_char(c: char) -> (b: bool)
    ensures
        b == is_ws(c),
{
    c == ' ' || c == '\t' || c == '\n' || c == '\r'
}

fn closer_char(c: char) -> (b: bool)
    ensures
        b == is_closer(c),
{
    c == ')' || c == ']' || c == '}'
}

fn atom_char(c: char) -> (b: bool)
    ensures
        b == is_atom_char(c),
{
    !ws_char(c) && c != '"' && !closer_char(c)
}

fn string_body_char(c: char) -> (b: bool)
    ensures
        b == (c != '"' && !is_closer(c)),
{
    c != '"' && !closer_char(c)
}

fn is_hash_opener(c: char) -> (b: bool)
    ensures
        b == (c == '(' || c == '{'),
{
    c == '(' || c == '{'
}

/// Scans the maximal run of atom characters starting at `start`.
fn scan_atom_run(s: &str, start: usize, n: usize) -> (k: usize)
    requires
        start <= n,
        n == s@.len(),
    ensures
        k as int == atom_run_end(s@, start as int),
        start <= k <= n,
{
    let mut k = start;
    while k < n && atom_char(s.get_char(k))
        invariant
            start <= k <= n,
            n == s@.len(),
            forall|m: int| start <= m < k ==> is_atom_char(#[trigger] s@[m]),
        decreases n - k,
    {
        k += 1;
    }
    proof {
        lemma_atom_run_end_is(s@, start as int, k as int);
    }
    k
}

/// Scans for the end of a string literal's body starting at `start`.
fn scan_string_body(s: &str, start: usize, n: usize) -> (j: usize)
    requires
        start <= n,
        n == s@.len(),
    ensures
        j as int == string_scan(s@, start as int),
        start <= j <= n,
{
    let mut j = start;
    while j < n && string_body_char(s.get_char(j))
        invariant
            start <= j <= n,
            n == s@.len(),
            forall|m: int| start <= m < j ==> (#[trigger] s@[m]) != '"' && !is_closer(s@[m]),
        decreases n - j,
    {
        j += 1;
    }
    proof {
        lemma_string_scan_is(s@, start as int, j as int);
    }
    j
}

/// Converts source text into its ordered sequence of tokens.
pub fn tokenize(s: &str) -> (r: Vec<String>)
    ensures
        token_models(r@) == spec_tokenize(s@, 0),
{
    let n = s.unicode_len();
    let mut toks: Vec<String> = Vec::new();
    let mut i: usize = 0;
    while i < n
        invariant
            0 <= i <= n,
            n == s@.len(),
            spec_tokenize(s@, 0) == token_models(toks@) + spec_tokenize(s@, i as int),
        decreases n - i,
    {
        let ghost toks0 = toks@;
        let ghost i0 = i as int;
        let c = s.get_char(i);
        if ws_char(c) {
            i += 1;
            proof {
                assert(spec_tokenize(s@, i0) == spec_tokenize(s@, i as int));
            }
        } else {
            if c == '\'' && i + 1 < n && s.get_char(i + 1) == '(' {
                let t = s.substring_char(i, i + 2).to_owned();
                proof {
                    lemma_token_models_push(toks0, t);
                }
                toks.push(t);
                i += 2;
            } else if c == '#' && i + 1 < n && is_hash_opener(s.get_char(i + 1)) {
                let t = s.substring_char(i, i + 2).to_owned();
                proof {
                    lemma_token_models_push(toks0, t);
                }
                toks.push(t);
                i += 2;
            } else if c == '(' || c == '[' || c == '{' || closer_char(c) {
                let t = s.substring_char(i, i + 1).to_owned();
                proof {
                    lemma_token_models_push(toks0, t);
                }
                toks.push(t);
                i += 1;
            } else if c == '"' {
                let j = scan_string_body(s, i + 1, n);
                if j < n && s.get_char(j) == '"' {
                    let t = s.substring_char(i, j + 1).to_owned();
                    proof {
                        lemma_token_models_push(toks0, t);
                    }
                    toks.push(t);
                    i = j + 1;
                } else {
                    let k = scan_atom_run(s, i + 1, n);
                    let t = s.substring_char(i, k).to_owned();
                    proof {
                        lemma_token_models_push(toks0, t);
                    }
                    toks.push(t);
                    i = k;
                }
            } else {
                let k = scan_atom_run(s, i + 1, n);
                let t = s.substring_char(i, k).to_owned();
                proof {
                    lemma_token_models_push(toks0, t);
                }
                toks.push(t);
                i = k;
            }
            proof {
                assert(token_models(toks@) + spec_tokenize(s@, i as int) =~= token_models(toks0)
                    + spec_tokenize(s@, i0));
            }
        }
    }
    proof {
        assert(spec_tokenize(s@, n as int) =~= Seq::<Seq<char>>::empty());
        assert(token_models(toks@) + spec_tokenize(s@, i as int) =~= token_models(toks@));
    }
    toks
}

} // verus!
