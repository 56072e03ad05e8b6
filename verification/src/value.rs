//! Argument values and argument signatures.
//!
//! A token's argument list is a sequence of literal values: integers, decimal
//! numbers, and arbitrarily nested lists of values.  A handler declares the
//! shape it expects as a sequence of [`ArgTy`], one per positional argument,
//! and a probe of the input is accepted only when it parses to values of
//! exactly that shape.  A decimal is kept exact, as an integer mantissa and a
//! power-of-ten scale, so no floating point enters the engine.

use vstd::prelude::*;

verus! {

broadcast use vstd::seq::group_seq_axioms, vstd::std_specs::vec::group_vec_axioms;

/// One parsed argument value.  `Dec { mantissa, scale }` stands for the exact
/// decimal `mantissa / 10^scale`, with `scale >= 1`.
#[derive(Debug, PartialEq, Eq)]
pub enum Value {
    Int(i64),
    Dec { mantissa: i64, scale: u32 },
    List(Vec<Value>),
}

/// The mathematical reading of a [`Value`]: unbounded integers and sequences.
pub enum ValModel {
    Int(int),
    Dec { mantissa: int, scale: nat },
    List(Seq<ValModel>),
}

impl Value {
    /// The value a [`Value`] denotes, lists read as sequences.
    pub open spec fn model(self) -> ValModel
        decreases self,
    {
        match self {
            Value::Int(x) => ValModel::Int(x as int),
            Value::Dec { mantissa, scale } => ValModel::Dec {
                mantissa: mantissa as int,
                scale: scale as nat,
            },
            Value::List(es) => ValModel::List(
                Seq::new(es@.len(), |k: int| if 0 <= k < es@.len() {
                    es@[k].model()
                } else {
                    ValModel::Int(0)
                }),
            ),
        }
    }
}

/// The shape of one positional argument a handler expects.
#[derive(Debug, PartialEq, Eq)]
pub enum ArgTy {
    /// An integer literal.
    Int,
    /// Any numeric literal, integer or decimal.
    Num,
    /// A list, of any length, of arguments of one shape.
    List(Box<ArgTy>),
    /// A list of fixed length with one shape per slot.
    Tuple(Vec<ArgTy>),
}

/// The models of a parsed argument list, position by position.
pub open spec fn models_of(vs: Seq<Value>) -> Seq<ValModel> {
    vs.map_values(|v: Value| v.model())
}

/// Whether the value `m` has the shape `t`.
pub open spec fn model_matches(m: ValModel, t: ArgTy) -> bool
    decreases m, t,
{
    match t {
        ArgTy::Int => m matches ValModel::Int(_),
        ArgTy::Num => !(m matches ValModel::List(_)),
        ArgTy::List(et) => match m {
            ValModel::List(ms) => forall|k: int|
                0 <= k < ms.len() ==> model_matches(#[trigger] ms[k], *et),
            _ => false,
        },
        ArgTy::Tuple(ts) => match m {
            ValModel::List(ms) => ms.len() == ts@.len() && (forall|k: int|
                0 <= k < ms.len() ==> model_matches(#[trigger] ms[k], ts@[k])),
            _ => false,
        },
    }
}

/// Whether the argument list `ms` has exactly the shapes `ts`, position by
/// position.
pub open spec fn models_match(ms: Seq<ValModel>, ts: Seq<ArgTy>) -> bool {
    ms.len() == ts.len() && (forall|k: int| 0 <= k < ms.len() ==> model_matches(ms[k], ts[k]))
}

/// Decide `model_matches(v.model(), *t)`.
#[verifier::loop_isolation(false)]
pub fn check_value(v: &Value, t: &ArgTy) -> (r: bool)
    ensures
        r == model_matches(v.model(), *t),
    decreases *v, *t,
{
    match t {
        ArgTy::Int => matches!(v, Value::Int(_)),
        ArgTy::Num => !matches!(v, Value::List(_)),
        ArgTy::List(et) => match v {
            Value::List(es) => {
                let ghost ms = v.model()->List_0;
                let mut k: usize = 0;
                while k < es.len()
                    invariant
                        k <= es.len(),
                        forall|j: int| 0 <= j < k ==> model_matches(#[trigger] ms[j], **et),
                    decreases es.len() - k,
                {
                    assert(ms[k as int] == es@[k as int].model());
                    if !check_value(&es[k], et) {
                        return false;
                    }
                    k += 1;
                }
                true
            },
            _ => false,
        },
        ArgTy::Tuple(ts) => match v {
            Value::List(es) => {
                if es.len() != ts.len() {
                    return false;
                }
                let ghost ms = v.model()->List_0;
                let mut k: usize = 0;
                while k < es.len()
                    invariant
                        k <= es.len(),
                        es@.len() == ts@.len(),
                        forall|j: int| 0 <= j < k ==> model_matches(#[trigger] ms[j], ts@[j]),
                    decreases es.len() - k,
                {
                    assert(ms[k as int] == es@[k as int].model());
                    if !check_value(&es[k], &ts[k]) {
                        return false;
                    }
                    k += 1;
                }
                true
            },
            _ => false,
        },
    }
}

/// Decide `models_match(models_of(vs@), ts@)`.
pub fn check_args(vs: &Vec<Value>, ts: &Vec<ArgTy>) -> (r: bool)
    ensures
        r == models_match(models_of(vs@), ts@),
{
    if vs.len() != ts.len() {
        return false;
    }
    let mut k: usize = 0;
    while k < vs.len()
        invariant
            k <= vs.len(),
            vs@.len() == ts@.len(),
            forall|j: int| 0 <= j < k ==> model_matches(#[trigger] models_of(vs@)[j], ts@[j]),
        decreases vs.len() - k,
    {
        assert(models_of(vs@)[k as int] == vs@[k as int].model());
        if !check_value(&vs[k], &ts[k]) {
            return false;
        }
        k += 1;
    }
    true
}

} // verus!
