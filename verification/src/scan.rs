//! Token matching: deciding whether a registered token stands at the front of
//! the input, and which of several registered tokens wins.
//!
//! Both the production engine and the executor scan their registries in
//! registration order and take the first token that is a prefix of the
//! remaining input; a token is never empty, and an empty token never matches.

use vstd::prelude::*;

verus! {

/// True when `tok` is a non-empty prefix of `input`.
pub open spec fn token_at(input: Seq<char>, tok: Seq<char>) -> bool {
    1 <= tok.len() <= input.len() && input.take(tok.len() as int) == tok
}

/// Index of the first token at position `i` or later of `toks` that is a
/// non-empty prefix of `input`.
pub open spec fn first_match_from(toks: Seq<Seq<char>>, input: Seq<char>, i: int) -> Option<int>
    decreases toks.len() - i,
{
    if i < 0 || i >= toks.len() {
        None
    } else if token_at(input, toks[i]) {
        Some(i)
    } else {
        first_match_from(toks, input, i + 1)
    }
}

/// Index of the first token of `toks` (in registration order) that is a
/// non-empty prefix of `input`.
pub open spec fn first_match(toks: Seq<Seq<char>>, input: Seq<char>) -> Option<int> {
    first_match_from(toks, input, 0)
}

/// A successful match is in range, matches the input, and is the earliest.
pub proof fn lemma_first_match_from(toks: Seq<Seq<char>>, input: Seq<char>, i: int)
    requires
        0 <= i <= toks.len(),
    ensures
        match first_match_from(toks, input, i) {
            Some(j) => i <= j < toks.len() && token_at(input, toks[j]) && (forall|k: int|
                i <= k < j ==> !token_at(input, toks[k])),
            None => forall|k: int| i <= k < toks.len() ==> !token_at(input, toks[k]),
        },
    decreases toks.len() - i,
{
    if i < toks.len() && !token_at(input, toks[i]) {
        lemma_first_match_from(toks, input, i + 1);
    }
}

/// Decide `token_at(input.skip(from), tok)` for the suffix starting at `from`.
pub fn matches_at(input: &Vec<char>, from: usize, tok: &Vec<char>) -> (b: bool)
    requires
        from <= input.len(),
    ensures
        b == token_at(input@.skip(from as int), tok@),
{
    let suffix_len = input.len() - from;
    if tok.len() == 0 || tok.len() > suffix_len {
        return false;
    }
    let mut k: usize = 0;
    while k < tok.len()
        invariant
            from <= input.len(),
            k <= tok.len(),
            1 <= tok.len() <= input.len() - from,
            forall|j: int| 0 <= j < k ==> input@[from + j] == tok@[j],
        decreases tok.len() - k,
    {
        if input[from + k] != tok[k] {
            assert(input@.skip(from as int).take(tok@.len() as int)[k as int] != tok@[k as int]);
            return false;
        }
        k += 1;
    }
    assert(input@.skip(from as int).take(tok@.len() as int) =~= tok@);
    true
}

/// A fresh vector holding the same characters as `v`.
pub fn clone_chars(v: &Vec<char>) -> (r: Vec<char>)
    ensures
        r@ == v@,
{
    let mut r: Vec<char> = Vec::new();
    let mut k: usize = 0;
    while k < v.len()
        invariant
            k <= v.len(),
            r@ == v@.take(k as int),
        decreases v.len() - k,
    {
        r.push(v[k]);
        proof {
            assert(v@.take(k + 1 as int) =~= v@.take(k as int).push(v@[k as int]));
        }
        k += 1;
    }
    assert(v@.take(v@.len() as int) =~= v@);
    r
}

/// Decide whether two character vectors hold the same text.
pub fn chars_equal(a: &Vec<char>, b: &Vec<char>) -> (r: bool)
    ensures
        r == (a@ == b@),
{
    if a.len() != b.len() {
        return false;
    }
    let mut k: usize = 0;
    while k < a.len()
        invariant
            k <= a.len(),
            a@.len() == b@.len(),
            forall|j: int| 0 <= j < k ==> a@[j] == b@[j],
        decreases a.len() - k,
    {
        if a[k] != b[k] {
            return false;
        }
        k += 1;
    }
    assert(a@ =~= b@);
    true
}

} // verus!
