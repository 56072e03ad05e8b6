//! The argument-literal grammar and its parser.
//!
//! An argument list is written in a JSON-like literal syntax: integers and
//! decimal numbers (an optional minus sign, a digit run with no superfluous
//! leading zero, and an optional fraction, at most eighteen digits in all),
//! and square-bracketed,
//! comma-separated lists of values, nested to any depth, with spaces, tabs
//! and line breaks allowed around values and separators.  The grammar is
//! defined by the spec functions here — [`parse_value`], [`parse_elems`] and
//! [`parse_text`] — and the executable parser is proved to return exactly
//! what they describe.
//!
//! The executor never sees a bracketed list directly: it probes a
//! parenthesized slice of the instruction stream, rewriting the slice's first
//! character to `[` and its last to `]` (see [`bracketed`]), and accepts the
//! shortest probe that parses to values of the handler's declared shapes.

use vstd::prelude::*;

use crate::value::ArgTy;
use crate::value::ValModel;
use crate::value::Value;
use crate::value::models_match;
use crate::value::models_of;

verus! {

broadcast use vstd::seq::group_seq_axioms, vstd::std_specs::vec::group_vec_axioms;

/// Whitespace the grammar allows around values and separators.
pub open spec fn is_ws(c: char) -> bool {
    c == ' ' || c == '\t' || c == '\n' || c == '\r'
}

/// A decimal digit.
pub open spec fn is_digit(c: char) -> bool {
    48 <= c as u32 <= 57
}

/// The numeric value of a decimal digit.
pub open spec fn digit_of(c: char) -> int {
    c as u32 - 48
}

/// The first position at or after `i` that does not hold whitespace.
pub open spec fn skip_ws(s: Seq<char>, i: int) -> int
    decreases s.len() - i,
{
    if 0 <= i < s.len() && is_ws(s[i]) {
        skip_ws(s, i + 1)
    } else {
        i
    }
}

/// The first position at or after `i` that does not hold a digit.
pub open spec fn digit_run_end(s: Seq<char>, i: int) -> int
    decreases s.len() - i,
{
    if 0 <= i < s.len() && is_digit(s[i]) {
        digit_run_end(s, i + 1)
    } else {
        i
    }
}

/// The integer written by the digits `s[i..j]`, read left to right.
pub open spec fn digits_val(s: Seq<char>, i: int, j: int) -> int
    decreases j - i,
{
    if j <= i {
        0
    } else {
        digits_val(s, i, j - 1) * 10 + digit_of(s[j - 1])
    }
}

/// Ten to the `n`.
pub open spec fn pow10(n: nat) -> int
    decreases n,
{
    if n == 0 {
        1
    } else {
        10 * pow10((n - 1) as nat)
    }
}

/// The number of digits a single numeric literal may carry in all; the cap
/// keeps every mantissa within the range the engine's integers can hold.
pub open spec fn max_digits() -> int {
    18
}

/// A numeric literal at position `i`: an optional minus sign, a digit run
/// without a superfluous leading zero, and optionally a dot followed by a
/// second digit run.  Yields the value and the position just past it, or
/// nothing if no number is written at `i` or its digits exceed
/// [`max_digits`].
pub open spec fn parse_number(s: Seq<char>, i: int) -> Option<(ValModel, int)> {
    let neg = 0 <= i < s.len() && s[i] == '-';
    let d0 = if neg {
        i + 1
    } else {
        i
    };
    let d1 = digit_run_end(s, d0);
    if d1 == d0 {
        None
    } else if d1 - d0 > 1 && s[d0] == '0' {
        None
    } else if d1 < s.len() && s[d1] == '.' {
        let f0 = d1 + 1;
        let f1 = digit_run_end(s, f0);
        if f1 == f0 || (d1 - d0) + (f1 - f0) > max_digits() {
            None
        } else {
            let m = digits_val(s, d0, d1) * pow10((f1 - f0) as nat) + digits_val(s, f0, f1);
            Some(
                (
                    ValModel::Dec {
                        mantissa: if neg {
                            -m
                        } else {
                            m
                        },
                        scale: (f1 - f0) as nat,
                    },
                    f1,
                ),
            )
        }
    } else if d1 - d0 > max_digits() {
        None
    } else {
        let v = digits_val(s, d0, d1);
        Some(
            (
                ValModel::Int(
                    if neg {
                        -v
                    } else {
                        v
                    },
                ),
                d1,
            ),
        )
    }
}

/// A value at position `i`: a numeric literal, or a bracketed list of values.
/// Yields the value and the position just past it.
pub open spec fn parse_value(s: Seq<char>, i: int) -> Option<(ValModel, int)>
    decreases s.len() - i, 0int,
{
    if i < 0 || i >= s.len() {
        None
    } else if s[i] == '[' {
        let j = skip_ws(s, i + 1);
        if !(i + 1 <= j <= s.len()) {
            None  // never taken: skipping whitespace stays within the text
        } else if j < s.len() && s[j] == ']' {
            Some((ValModel::List(Seq::empty()), j + 1))
        } else {
            match parse_elems(s, j) {
                Some((ms, e)) => Some((ValModel::List(ms), e)),
                None => None,
            }
        }
    } else {
        parse_number(s, i)
    }
}

/// One or more comma-separated values at position `i`, up to and including a
/// closing bracket.  Yields the values and the position just past the
/// bracket.
pub open spec fn parse_elems(s: Seq<char>, i: int) -> Option<(Seq<ValModel>, int)>
    decreases s.len() - i, 1int,
{
    match parse_value(s, i) {
        None => None,
        Some((m, e)) => {
            if !(i < e <= s.len()) {
                None  // never taken: a parsed value consumes at least one character
            } else {
                let k = skip_ws(s, e);
                if !(e <= k <= s.len()) {
                    None  // never taken: skipping whitespace stays within the text
                } else if k < s.len() && s[k] == ',' {
                    let n = skip_ws(s, k + 1);
                    if !(i < n <= s.len()) {
                        None  // never taken: n lies past the comma
                    } else {
                        match parse_elems(s, n) {
                            Some((ms, e2)) => Some((seq![m] + ms, e2)),
                            None => None,
                        }
                    }
                } else if k < s.len() && s[k] == ']' {
                    Some((seq![m], k + 1))
                } else {
                    None
                }
            }
        },
    }
}

/// The whole text `s` as one value: leading and trailing whitespace allowed,
/// nothing else before or after.
pub open spec fn parse_text(s: Seq<char>) -> Option<ValModel> {
    match parse_value(s, skip_ws(s, 0)) {
        Some((m, e)) => if skip_ws(s, e) == s.len() {
            Some(m)
        } else {
            None
        },
        None => None,
    }
}

/// The probe of length `k + 1` taken at the front of `rest`: the slice with
/// its first character rewritten to `[` and its last to `]`.  For `k == 0`
/// the two rewrites fall on the same character and the later one wins.
pub open spec fn bracketed(rest: Seq<char>, k: int) -> Seq<char> {
    rest.take(k + 1).update(0, '[').update(k, ']')
}

/// Whether a probe text satisfies a handler: a handler with no declared
/// arguments accepts any probe without reading it, and any other handler
/// requires the text to parse as a list of values of exactly its shapes.
pub open spec fn accepts(text: Seq<char>, sig: Seq<ArgTy>) -> bool {
    sig.len() == 0 || match parse_text(text) {
        Some(ValModel::List(ms)) => models_match(ms, sig),
        _ => false,
    }
}

/// The first probe length (less one) at or after `k` whose probe `sig`
/// accepts, or nothing if none up to the end of `rest` is accepted.
pub open spec fn probe_from(rest: Seq<char>, sig: Seq<ArgTy>, k: int) -> Option<int>
    decreases rest.len() - k,
{
    if k < 0 || k >= rest.len() {
        None
    } else if accepts(bracketed(rest, k), sig) {
        Some(k)
    } else {
        probe_from(rest, sig, k + 1)
    }
}

/// The values the accepted probe at `k` carries.
pub open spec fn probe_vals(rest: Seq<char>, sig: Seq<ArgTy>, k: int) -> Seq<ValModel> {
    if sig.len() == 0 {
        Seq::empty()
    } else {
        match parse_text(bracketed(rest, k)) {
            Some(ValModel::List(ms)) => ms,
            _ => Seq::empty(),
        }
    }
}

/// Ten to a non-zero power is positive.
pub proof fn lemma_pow10_pos(n: nat)
    ensures
        pow10(n) >= 1,
    decreases n,
{
    if n > 0 {
        lemma_pow10_pos((n - 1) as nat);
    }
}

/// Ten to a power grows with the power.
pub proof fn lemma_pow10_mono(a: nat, b: nat)
    requires
        a <= b,
    ensures
        pow10(a) <= pow10(b),
    decreases b,
{
    lemma_pow10_pos(a);
    if a < b {
        lemma_pow10_mono(a, (b - 1) as nat);
    }
}

/// Powers of ten multiply by adding exponents.
pub proof fn lemma_pow10_adds(a: nat, b: nat)
    ensures
        pow10(a + b) == pow10(a) * pow10(b),
    decreases a,
{
    if a > 0 {
        lemma_pow10_adds((a - 1) as nat, b);
        assert(pow10(a + b) == 10 * pow10((a - 1 + b) as nat));
        assert(10 * (pow10((a - 1) as nat) * pow10(b)) == (10 * pow10((a - 1) as nat)) * pow10(
            b,
        )) by (nonlinear_arith);
    }
}

/// The eighteen-digit cap, written out.
pub proof fn lemma_pow10_concrete()
    ensures
        pow10(18) == 1000000000000000000,
{
    reveal_with_fuel(pow10, 19);
}

/// A digit run's value is non-negative and below ten to its length.
pub proof fn lemma_digits_val_bound(s: Seq<char>, i: int, j: int)
    requires
        i <= j,
        forall|k: int| i <= k < j ==> is_digit(#[trigger] s[k]),
    ensures
        0 <= digits_val(s, i, j) < pow10((j - i) as nat),
    decreases j - i,
{
    if i == j {
    } else {
        lemma_digits_val_bound(s, i, j - 1);
        assert(is_digit(s[j - 1]));
        assert(pow10((j - i) as nat) == 10 * pow10((j - 1 - i) as nat));
    }
}

/// The first non-whitespace position at or after `from`.
pub fn skip_ws_x(s: &Vec<char>, from: usize) -> (r: usize)
    requires
        from <= s.len(),
    ensures
        from <= r <= s.len(),
        r as int == skip_ws(s@, from as int),
{
    let mut k = from;
    while k < s.len() && (s[k] == ' ' || s[k] == '\t' || s[k] == '\n' || s[k] == '\r')
        invariant
            from <= k <= s.len(),
            skip_ws(s@, from as int) == skip_ws(s@, k as int),
        decreases s.len() - k,
    {
        k += 1;
    }
    k
}

/// The first non-digit position at or after `from`, and the fact that
/// everything before it in the run is a digit.
pub fn digit_run(s: &Vec<char>, from: usize) -> (r: usize)
    requires
        from <= s.len(),
    ensures
        from <= r <= s.len(),
        r as int == digit_run_end(s@, from as int),
        forall|k: int| from <= k < r ==> is_digit(#[trigger] s@[k]),
{
    let mut k = from;
    while k < s.len() && 48 <= s[k] as u32 && s[k] as u32 <= 57
        invariant
            from <= k <= s.len(),
            digit_run_end(s@, from as int) == digit_run_end(s@, k as int),
            forall|j: int| from <= j < k ==> is_digit(#[trigger] s@[j]),
        decreases s.len() - k,
    {
        k += 1;
    }
    k
}

/// Ten to the `n` as a machine integer.
pub fn pow10_u(n: usize) -> (r: u64)
    requires
        n <= 18,
    ensures
        r as int == pow10(n as nat),
{
    proof {
        lemma_pow10_concrete();
    }
    let mut r: u64 = 1;
    let mut k: usize = 0;
    while k < n
        invariant
            k <= n <= 18,
            r as int == pow10(k as nat),
            pow10(18) == 1000000000000000000,
        decreases n - k,
    {
        proof {
            lemma_pow10_mono((k + 1) as nat, 18);
        }
        r = r * 10;
        k += 1;
    }
    r
}

/// The value of the digit run `s[from..to]`.
pub fn digits_value(s: &Vec<char>, from: usize, to: usize) -> (r: u64)
    requires
        from <= to <= s.len(),
        to - from <= 18,
        forall|k: int| from <= k < to ==> is_digit(#[trigger] s@[k]),
    ensures
        r as int == digits_val(s@, from as int, to as int),
        (r as int) < pow10((to - from) as nat),
{
    proof {
        lemma_pow10_concrete();
    }
    let mut r: u64 = 0;
    let mut k = from;
    while k < to
        invariant
            from <= k <= to <= s.len(),
            to - from <= 18,
            forall|j: int| from <= j < to ==> is_digit(#[trigger] s@[j]),
            r as int == digits_val(s@, from as int, k as int),
            (r as int) < pow10((k - from) as nat),
            pow10(18) == 1000000000000000000,
        decreases to - k,
    {
        proof {
            lemma_pow10_mono((k + 1 - from) as nat, 18);
            assert(pow10((k + 1 - from) as nat) == 10 * pow10((k - from) as nat));
        }
        let d = s[k] as u32 - 48;
        r = r * 10 + (d as u64);
        k += 1;
    }
    r
}

/// A numeric literal at position `i` of the text, exactly as [`parse_number`]
/// reads it.
pub fn parse_number_x(s: &Vec<char>, i: usize) -> (r: Option<(Value, usize)>)
    requires
        i <= s.len(),
    ensures
        ({
            let sp = parse_number(s@, i as int);
            match r {
                None => sp is None,
                Some(p) => sp == Some((p.0.model(), p.1 as int)) && p.1 <= s.len(),
            }
        }),
{
    proof {
        lemma_pow10_concrete();
    }
    let neg = i < s.len() && s[i] == '-';
    let d0 = if neg {
        i + 1
    } else {
        i
    };
    let d1 = digit_run(s, d0);
    if d1 == d0 {
        return None;
    }
    if d1 - d0 > 1 && s[d0] == '0' {
        return None;
    }
    proof {
        lemma_digits_val_bound(s@, d0 as int, d1 as int);
    }
    if d1 < s.len() && s[d1] == '.' {
        let f0 = d1 + 1;
        let f1 = digit_run(s, f0);
        if f1 == f0 {
            return None;
        }
        if (d1 - d0) + (f1 - f0) > 18 {
            return None;
        }
        proof {
            lemma_digits_val_bound(s@, f0 as int, f1 as int);
            lemma_pow10_mono((f1 - f0) as nat, 18);
        }
        let ip = digits_value(s, d0, d1);
        let fv = digits_value(s, f0, f1);
        let p = pow10_u(f1 - f0);
        proof {
            lemma_pow10_adds((d1 - d0) as nat, (f1 - f0) as nat);
            lemma_pow10_mono(((d1 - d0) + (f1 - f0)) as nat, 18);
            assert(ip as int * (p as int) <= (pow10((d1 - d0) as nat) - 1) * pow10(
                (f1 - f0) as nat,
            )) by (nonlinear_arith)
                requires
                    0 <= ip as int,
                    (ip as int) < pow10((d1 - d0) as nat),
                    p as int == pow10((f1 - f0) as nat),
                    pow10((f1 - f0) as nat) >= 0,
            ;
            assert((pow10((d1 - d0) as nat) - 1) * pow10((f1 - f0) as nat) == pow10(
                (d1 - d0) as nat,
            ) * pow10((f1 - f0) as nat) - pow10((f1 - f0) as nat)) by (nonlinear_arith);
            assert(ip as int * (p as int) >= 0) by (nonlinear_arith)
                requires
                    ip as int >= 0,
                    p as int >= 0,
            ;
        }
        let m = ip * p + fv;
        let mantissa: i64 = if neg {
            -(m as i64)
        } else {
            m as i64
        };
        let scale: u32 = (f1 - f0) as u32;
        return Some((Value::Dec { mantissa, scale }, f1));
    }
    if d1 - d0 > 18 {
        return None;
    }
    proof {
        lemma_pow10_mono((d1 - d0) as nat, 18);
    }
    let v = digits_value(s, d0, d1);
    let value: i64 = if neg {
        -(v as i64)
    } else {
        v as i64
    };
    Some((Value::Int(value), d1))
}

/// A value at position `i` of the text, exactly as [`parse_value`] reads it.
pub fn parse_value_x(s: &Vec<char>, i: usize) -> (r: Option<(Value, usize)>)
    requires
        i <= s.len(),
    ensures
        ({
            let sp = parse_value(s@, i as int);
            match r {
                None => sp is None,
                Some(p) => sp == Some((p.0.model(), p.1 as int)) && p.1 <= s.len(),
            }
        }),
    decreases s.len() - i, 0int,
{
    if i >= s.len() {
        return None;
    }
    if s[i] == '[' {
        let j = skip_ws_x(s, i + 1);
        if j < s.len() && s[j] == ']' {
            let es: Vec<Value> = Vec::new();
            proof {
                assert(Value::List(es).model()->List_0 =~= Seq::<ValModel>::empty());
            }
            return Some((Value::List(es), j + 1));
        }
        match parse_elems_x(s, j) {
            Some((vs, e)) => {
                proof {
                    assert(Value::List(vs).model()->List_0 =~= models_of(vs@));
                }
                Some((Value::List(vs), e))
            },
            None => None,
        }
    } else {
        parse_number_x(s, i)
    }
}

/// One or more comma-separated values at position `i`, up to and including
/// the closing bracket, exactly as [`parse_elems`] reads them.
pub fn parse_elems_x(s: &Vec<char>, i: usize) -> (r: Option<(Vec<Value>, usize)>)
    requires
        i <= s.len(),
    ensures
        ({
            let sp = parse_elems(s@, i as int);
            match r {
                None => sp is None,
                Some(p) => sp == Some((models_of(p.0@), p.1 as int)) && p.1 <= s.len(),
            }
        }),
    decreases s.len() - i, 1int,
{
    match parse_value_x(s, i) {
        None => None,
        Some((v, e)) => {
            if e <= i {
                return None;  // never taken: a parsed value consumes at least one character
            }
            let k = skip_ws_x(s, e);
            if k < s.len() && s[k] == ',' {
                let n = skip_ws_x(s, k + 1);
                match parse_elems_x(s, n) {
                    Some((vs, e2)) => {
                        let ghost tail_models = models_of(vs@);
                        let mut vs = vs;
                        vs.insert(0, v);
                        proof {
                            assert(models_of(vs@) =~= seq![v.model()] + tail_models);
                        }
                        Some((vs, e2))
                    },
                    None => None,
                }
            } else if k < s.len() && s[k] == ']' {
                let mut vs: Vec<Value> = Vec::new();
                vs.push(v);
                proof {
                    assert(models_of(vs@) =~= seq![v.model()]);
                }
                Some((vs, k + 1))
            } else {
                None
            }
        },
    }
}

/// The whole text as one value, exactly as [`parse_text`] reads it.
pub fn parse_text_x(s: &Vec<char>) -> (r: Option<Value>)
    ensures
        ({
            let sp = parse_text(s@);
            match r {
                None => sp is None,
                Some(v) => sp == Some(v.model()),
            }
        }),
{
    let j = skip_ws_x(s, 0);
    match parse_value_x(s, j) {
        Some((v, e)) => {
            let k = skip_ws_x(s, e);
            if k == s.len() {
                Some(v)
            } else {
                None
            }
        },
        None => None,
    }
}

/// Build the probe of length `k + 1` over the suffix of `s` at `from`.
pub fn make_probe(s: &Vec<char>, from: usize, k: usize) -> (r: Vec<char>)
    requires
        from < s.len(),
        k < s.len() - from,
    ensures
        r@ == bracketed(s@.skip(from as int), k as int),
{
    let ghost target = bracketed(s@.skip(from as int), k as int);
    let mut r: Vec<char> = Vec::new();
    let mut j: usize = 0;
    while j <= k
        invariant
            from < s.len(),
            k < s.len() - from,
            j <= k + 1,
            target == bracketed(s@.skip(from as int), k as int),
            r@.len() == j,
            forall|m: int| 0 <= m < j ==> r@[m] == target[m],
        decreases k + 1 - j,
    {
        let c = if j == k {
            ']'
        } else if j == 0 {
            '['
        } else {
            s[from + j]
        };
        r.push(c);
        j += 1;
    }
    proof {
        assert(r@ =~= target);
    }
    r
}

/// Search the suffix of `s` at `from` for the shortest accepted probe, and
/// hand back its end offset and its parsed values.
pub fn probe_search(s: &Vec<char>, from: usize, sig: &Vec<ArgTy>) -> (r: Option<(usize, Vec<
    Value,
>)>)
    requires
        from < s.len(),
    ensures
        ({
            let rest = s@.skip(from as int);
            match r {
                Some(p) => probe_from(rest, sig@, 0) == Some(p.0 as int) && models_of(p.1@)
                    == probe_vals(rest, sig@, p.0 as int) && p.0 < s.len() - from,
                None => probe_from(rest, sig@, 0) is None,
            }
        }),
{
    let ghost rest = s@.skip(from as int);
    if sig.len() == 0 {
        let vals: Vec<Value> = Vec::new();
        proof {
            assert(accepts(bracketed(rest, 0), sig@));
            assert(models_of(vals@) =~= Seq::<ValModel>::empty());
        }
        return Some((0, vals));
    }
    let mut k: usize = 0;
    while k < s.len() - from
        invariant
            from < s.len(),
            k <= s.len() - from,
            rest == s@.skip(from as int),
            sig@.len() > 0,
            probe_from(rest, sig@, 0) == probe_from(rest, sig@, k as int),
        decreases s.len() - from - k,
    {
        let probe = make_probe(s, from, k);
        match parse_text_x(&probe) {
            Some(v) => match v {
                Value::List(es) => {
                    if crate::value::check_args(&es, sig) {
                        return Some((k, es));
                    }
                },
                _ => {
                    proof {
                        assert(!(v.model() matches ValModel::List(_)));
                    }
                },
            },
            None => {},
        }
        k += 1;
    }
    None
}

} // verus!
