//! The instruction executor: a caller-owned state value, a registry of token
//! handlers, and the run loop that consumes a finished word left to right.
//!
//! At each position the first registered token (in registration order) that
//! prefixes the remaining input is taken; input under no token is skipped one
//! character at a time and never stops the run.  A taken token not followed
//! by an opening parenthesis dispatches with no arguments.  One followed by
//! an opening parenthesis starts a probe: growing slices of the remaining
//! input, first and last character rewritten to brackets, are parsed until
//! one yields values of the handler's declared shapes; the shortest such
//! slice wins, the cursor advances past it — its last character, the closing
//! parenthesis of a complete list, is consumed — and the handler runs with
//! the parsed values.  If no slice up to the end of the input is accepted,
//! the run stops with [`ExecError::ArgParse`] and nothing after the failure
//! point is dispatched.
//!
//! The spec function [`run_from`] defines which rule dispatches where and
//! with which argument values; [`apply_dispatches`] folds the handlers'
//! declared transitions over that sequence, so the contract of
//! [`LSystemExecutor::execute`] pins the final state and handler values, not
//! only the run's outcome.

use vstd::prelude::*;

use crate::parse::probe_from;
use crate::parse::probe_vals;
use crate::production::LSystem;
use crate::production::rule_tokens;
use crate::scan::first_match;
use crate::scan::first_match_from;
use crate::scan::lemma_first_match_from;
use crate::scan::token_at;
use crate::value::ArgTy;
use crate::value::ValModel;
use crate::value::Value;
use crate::value::models_of;

verus! {

broadcast use vstd::seq::group_seq_axioms, vstd::std_specs::vec::group_vec_axioms;

/// Why a run stopped early.
#[derive(Debug, PartialEq, Eq)]
pub enum ExecError {
    /// A token's argument list never parsed, at any probe length up to the
    /// end of the input.
    ArgParse,
    /// A handler reported a failure of its own.
    Handler,
}

/// A handler bound to a token: called once per dispatched occurrence, with
/// exclusive access to the caller's state and the parsed argument values.
///
/// An implementation declares what one dispatch does as a transition on the
/// handler-and-state pair, and whether it fails; a failure ends the run, with
/// the transition's effects kept (there is no rollback).  The defaults leave
/// the transition unspecified: an implementation that keeps them promises
/// nothing of its dispatches, and only one that overrides them can be
/// verified.
pub trait CallParsed<State>: Sized {
    /// The handler and the state after one dispatch with these argument
    /// values.
    open spec fn transition(&self, state: State, args: Seq<ValModel>) -> (Self, State) {
        arbitrary()
    }

    /// Whether a dispatch with these argument values fails.
    open spec fn transition_fails(&self, state: State, args: Seq<ValModel>) -> bool {
        arbitrary()
    }

    /// Run the handler once.
    fn call_parsed(&mut self, state: &mut State, args: Vec<Value>) -> (r: Result<(), ExecError>)
        ensures
            *final (self) == old(self).transition(*old(state), models_of(args@)).0,
            *final (state) == old(self).transition(*old(state), models_of(args@)).1,
            r is Err <==> old(self).transition_fails(*old(state), models_of(args@)),
            r is Err ==> r == Err::<(), ExecError>(ExecError::Handler),
    ;
}

/// A handler that counts its dispatches and never fails, whatever its
/// arguments hold.
pub struct Tally;

impl CallParsed<u64> for Tally {
    open spec fn transition(&self, state: u64, args: Seq<ValModel>) -> (Self, u64) {
        (
            Tally,
            if state < u64::MAX {
                (state + 1) as u64
            } else {
                state
            },
        )
    }

    open spec fn transition_fails(&self, state: u64, args: Seq<ValModel>) -> bool {
        false
    }

    fn call_parsed(&mut self, state: &mut u64, args: Vec<Value>) -> (r: Result<(), ExecError>) {
        if *state < u64::MAX {
            *state = *state + 1;
        }
        Ok(())
    }
}

/// One registered execution rule: the trigger token, the declared shapes of
/// its arguments, and the handler.
pub struct ExecRule<H> {
    pub token: Vec<char>,
    pub sig: Vec<ArgTy>,
    pub handler: H,
}

/// The registry's tokens and argument shapes, in registration order.  The
/// scan and the probes depend on these alone, never on the handlers.
pub open spec fn rules_meta<H>(rules: Seq<ExecRule<H>>) -> Seq<(Seq<char>, Seq<ArgTy>)> {
    rules.map_values(|r: ExecRule<H>| (r.token@, r.sig@))
}

/// The registry's handlers, in registration order.
pub open spec fn handlers_of<H>(rules: Seq<ExecRule<H>>) -> Seq<H> {
    rules.map_values(|r: ExecRule<H>| r.handler)
}

/// Everything one run dispatches, in order — pairs of rule index and argument
/// models — and the parse error that stopped the scan, if one did.
/// Dispatches before a failure point stand in the sequence; nothing at or
/// after it does.
pub open spec fn run_from(rules: Seq<(Seq<char>, Seq<ArgTy>)>, input: Seq<char>) -> (Seq<
    (int, Seq<ValModel>),
>, Option<ExecError>)
    decreases input.len(),
{
    if input.len() == 0 {
        (Seq::empty(), None)
    } else {
        match first_match(rule_tokens(rules), input) {
            None => run_from(rules, input.skip(1)),
            Some(i) => {
                let tok = rules[i].0;
                let sig = rules[i].1;
                // a matched token is non-empty and no longer than the input
                let step: int = if 1 <= tok.len() <= input.len() {
                    tok.len() as int
                } else {
                    1
                };
                let rest = input.skip(step);
                if rest.len() == 0 || rest[0] != '(' {
                    let tail = run_from(rules, rest);
                    (seq![(i, Seq::<ValModel>::empty())] + tail.0, tail.1)
                } else {
                    match probe_from(rest, sig, 0) {
                        None => (Seq::empty(), Some(ExecError::ArgParse)),
                        Some(k) => {
                            // a handler with no declared arguments reads
                            // nothing; any other consumes its whole probe
                            let adv: int = if sig.len() == 0 {
                                0
                            } else if 0 <= k < rest.len() {
                                k + 1
                            } else {
                                0
                            };
                            let tail = run_from(rules, rest.skip(adv));
                            (seq![(i, probe_vals(rest, sig, k))] + tail.0, tail.1)
                        },
                    }
                }
            },
        }
    }
}

/// The handlers and the state after running the dispatches in order,
/// stopping at the first failing one, and whether one failed.  A failing
/// dispatch keeps its own transition — there is no rollback — and nothing
/// after it applies.
pub open spec fn apply_dispatches<State, H: CallParsed<State>>(
    handlers: Seq<H>,
    state: State,
    steps: Seq<(int, Seq<ValModel>)>,
) -> (Seq<H>, State, bool)
    decreases steps.len(),
{
    if steps.len() == 0 {
        (handlers, state, false)
    } else {
        let i = steps[0].0;
        let args = steps[0].1;
        if !(0 <= i < handlers.len()) {
            (handlers, state, false)  // never taken: dispatched indices lie in the registry
        } else {
            let next = handlers[i].transition(state, args);
            if handlers[i].transition_fails(state, args) {
                (handlers.update(i, next.0), next.1, true)
            } else {
                apply_dispatches(handlers.update(i, next.0), next.1, steps.drop_first())
            }
        }
    }
}

/// Input in which no registered token starts anywhere is skipped to its end:
/// nothing is dispatched and no error arises.
pub proof fn lemma_unrecognized_skipped(rules: Seq<(Seq<char>, Seq<ArgTy>)>, input: Seq<char>)
    requires
        forall|p: int|
            0 <= p <= input.len() ==> first_match(rule_tokens(rules), #[trigger] input.skip(p))
                is None,
    ensures
        run_from(rules, input) == (Seq::<(int, Seq<ValModel>)>::empty(), None::<ExecError>),
    decreases input.len(),
{
    if input.len() > 0 {
        assert(input.skip(0) =~= input);
        assert(first_match(rule_tokens(rules), input) is None);
        assert forall|p: int| 0 <= p <= input.skip(1).len() implies first_match(
            rule_tokens(rules),
            #[trigger] input.skip(1).skip(p),
        ) is None by {
            assert(input.skip(1).skip(p) =~= input.skip(p + 1));
        }
        lemma_unrecognized_skipped(rules, input.skip(1));
    }
}

/// Over such input a run also touches nothing: every handler and the state
/// come out as they went in, and no dispatch fails.
pub proof fn lemma_unrecognized_leaves_state<State, H: CallParsed<State>>(
    rules: Seq<(Seq<char>, Seq<ArgTy>)>,
    input: Seq<char>,
    handlers: Seq<H>,
    state: State,
)
    requires
        forall|p: int|
            0 <= p <= input.len() ==> first_match(rule_tokens(rules), #[trigger] input.skip(p))
                is None,
    ensures
        apply_dispatches(handlers, state, run_from(rules, input).0) == (handlers, state, false),
{
    lemma_unrecognized_skipped(rules, input);
}

/// The instruction executor: the caller's state and the registered rules.
pub struct LSystemExecutor<State, H> {
    pub state: State,
    pub execution_rules: Vec<ExecRule<H>>,
}

impl<State, H: CallParsed<State>> LSystemExecutor<State, H> {
    /// The registry's tokens and argument shapes, in registration order.
    pub open spec fn meta(self) -> Seq<(Seq<char>, Seq<ArgTy>)> {
        rules_meta(self.execution_rules@)
    }

    /// An executor owning `state`, with no rules registered.
    pub fn new(state: State) -> (r: LSystemExecutor<State, H>)
        ensures
            r.state == state,
            r.execution_rules@ == Seq::<ExecRule<H>>::empty(),
    {
        let r = LSystemExecutor { state, execution_rules: Vec::new() };
        proof {
            assert(r.execution_rules@ =~= Seq::<ExecRule<H>>::empty());
        }
        r
    }

    /// Append a rule binding the non-empty token `token`, whose occurrences
    /// carry arguments of the shapes `sig`, to `rule`.  Lookup follows
    /// registration order, so of two rules for one token the earlier wins.
    pub fn register_execution_rule(&mut self, token: Vec<char>, sig: Vec<ArgTy>, rule: H)
        requires
            token@.len() > 0,
        ensures
            final (self).execution_rules@ == old(self).execution_rules@.push(
                ExecRule { token, sig, handler: rule },
            ),
            final (self).state == old(self).state,
    {
        self.execution_rules.push(ExecRule { token, sig, handler: rule });
    }

    /// Run the system's finished word against the registered rules.  Which
    /// rule dispatches where and with which argument values is exactly what
    /// [`run_from`] says of the word and the registry; the handlers and the
    /// state come out as [`apply_dispatches`] folds the handlers' transitions
    /// over that sequence, and the result is the first failing handler's
    /// error, else the scan's parse error, else success.
    #[verifier::rlimit(60)]
    pub fn execute<G>(&mut self, system: &LSystem<G>) -> (r: Result<(), ExecError>)
        ensures
            final (self).meta() == old(self).meta(),
            ({
                let trace = run_from(old(self).meta(), system.word@);
                let applied = apply_dispatches(
                    handlers_of(old(self).execution_rules@),
                    old(self).state,
                    trace.0,
                );
                &&& handlers_of(final (self).execution_rules@) == applied.0
                &&& final (self).state == applied.1
                &&& r == (if applied.2 {
                    Err::<(), ExecError>(ExecError::Handler)
                } else {
                    match trace.1 {
                        None => Ok::<(), ExecError>(()),
                        Some(e) => Err::<(), ExecError>(e),
                    }
                })
            }),
    {
        let ghost meta = self.meta();
        let ghost word = system.word@;
        let ghost h0 = handlers_of(self.execution_rules@);
        let ghost s0 = self.state;
        let mut p: usize = 0;
        proof {
            assert(word.skip(0) =~= word);
        }
        while p < system.word.len()
            invariant
                p <= system.word.len(),
                system.word@ == word,
                meta == old(self).meta(),
                h0 == handlers_of(old(self).execution_rules@),
                s0 == old(self).state,
                self.meta() == meta,
                self.execution_rules@.len() == old(self).execution_rules@.len(),
                run_from(meta, word).1 == run_from(meta, word.skip(p as int)).1,
                apply_dispatches(h0, s0, run_from(meta, word).0) == apply_dispatches(
                    handlers_of(self.execution_rules@),
                    self.state,
                    run_from(meta, word.skip(p as int)).0,
                ),
            decreases system.word.len() - p,
        {
            let ghost rest = word.skip(p as int);
            proof {
                lemma_first_match_from(rule_tokens(meta), rest, 0);
            }
            match find_handler_at(&self.execution_rules, &system.word, p) {
                None => {
                    proof {
                        assert(rest.skip(1) =~= word.skip(p + 1 as int));
                    }
                    p += 1;
                },
                Some(i) => {
                    proof {
                        assert(meta[i as int] == (
                            self.execution_rules@[i as int].token@,
                            self.execution_rules@[i as int].sig@,
                        ));
                        assert(rule_tokens(meta)[i as int] == meta[i as int].0);
                        assert(token_at(rest, meta[i as int].0));
                    }
                    let tok_len = self.execution_rules[i].token.len();
                    let p2 = p + tok_len;
                    let ghost after_tok = rest.skip(tok_len as int);
                    proof {
                        assert(after_tok =~= word.skip(p2 as int));
                    }
                    if p2 >= system.word.len() || system.word[p2] != '(' {
                        let ghost step = (i as int, Seq::<ValModel>::empty());
                        let ghost tail = run_from(meta, after_tok);
                        proof {
                            assert(run_from(meta, rest) == (seq![step] + tail.0, tail.1));
                            assert((seq![step] + tail.0)[0] == step);
                            assert((seq![step] + tail.0).drop_first() =~= tail.0);
                        }
                        let outcome = self.dispatch(i, Vec::new());
                        proof {
                            assert(models_of(Seq::<Value>::empty()) =~= Seq::<
                                ValModel,
                            >::empty());
                        }
                        if let Err(e) = outcome {
                            return Err(e);
                        }
                        p = p2;
                    } else {
                        proof {
                            assert(after_tok[0] == '(');
                        }
                        let probe = crate::parse::probe_search(
                            &system.word,
                            p2,
                            &self.execution_rules[i].sig,
                        );
                        match probe {
                            None => {
                                proof {
                                    assert(run_from(meta, rest) == (
                                        Seq::<(int, Seq<ValModel>)>::empty(),
                                        Some(ExecError::ArgParse),
                                    ));
                                }
                                return Err(ExecError::ArgParse);
                            },
                            Some((k, vals)) => {
                                let adv = if self.execution_rules[i].sig.len() == 0 {
                                    0
                                } else {
                                    k + 1
                                };
                                let ghost step = (
                                    i as int,
                                    probe_vals(after_tok, meta[i as int].1, k as int),
                                );
                                let ghost tail = run_from(meta, after_tok.skip(adv as int));
                                proof {
                                    assert(after_tok.skip(adv as int) =~= word.skip(
                                        p2 + adv as int,
                                    ));
                                    assert(run_from(meta, rest) == (
                                        seq![step] + tail.0,
                                        tail.1,
                                    ));
                                    assert((seq![step] + tail.0)[0] == step);
                                    assert((seq![step] + tail.0).drop_first() =~= tail.0);
                                }
                                let outcome = self.dispatch(i, vals);
                                if let Err(e) = outcome {
                                    return Err(e);
                                }
                                p = p2 + adv;
                            },
                        }
                    }
                },
            }
        }
        proof {
            assert(word.skip(p as int) =~= Seq::<char>::empty());
        }
        Ok(())
    }

    /// Run one handler, leaving the registry's tokens and shapes as they
    /// were and the handler and state as its declared transition says.
    fn dispatch(&mut self, i: usize, vals: Vec<Value>) -> (r: Result<(), ExecError>)
        requires
            i < old(self).execution_rules@.len(),
        ensures
            final (self).meta() == old(self).meta(),
            final (self).execution_rules@.len() == old(self).execution_rules@.len(),
            ({
                let h = handlers_of(old(self).execution_rules@)[i as int];
                let next = h.transition(old(self).state, models_of(vals@));
                &&& handlers_of(final (self).execution_rules@) == handlers_of(
                    old(self).execution_rules@,
                ).update(i as int, next.0)
                &&& final (self).state == next.1
                &&& (r is Err <==> h.transition_fails(old(self).state, models_of(vals@)))
                &&& (r is Err ==> r == Err::<(), ExecError>(ExecError::Handler))
            }),
    {
        let ghost orig = self.execution_rules@;
        let mut entry = self.execution_rules.remove(i);
        let r = entry.handler.call_parsed(&mut self.state, vals);
        self.execution_rules.insert(i, entry);
        proof {
            assert(handlers_of(orig)[i as int] == orig[i as int].handler);
            assert(self.meta() =~= rules_meta(orig));
            assert(handlers_of(self.execution_rules@) =~= handlers_of(orig).update(
                i as int,
                self.execution_rules@[i as int].handler,
            ));
        }
        r
    }
}

/// Find the first registered rule whose token starts at position `from` of
/// the word, in registration order.
fn find_handler_at<H>(rules: &Vec<ExecRule<H>>, word: &Vec<char>, from: usize) -> (r: Option<
    usize,
>)
    requires
        from <= word.len(),
    ensures
        match r {
            Some(i) => i < rules.len() && first_match(
                rule_tokens(rules_meta(rules@)),
                word@.skip(from as int),
            ) == Some(i as int),
            None => first_match(rule_tokens(rules_meta(rules@)), word@.skip(from as int))
                is None,
        },
{
    let ghost toks = rule_tokens(rules_meta(rules@));
    let ghost rest = word@.skip(from as int);
    let mut i: usize = 0;
    while i < rules.len()
        invariant
            from <= word.len(),
            i <= rules.len(),
            toks == rule_tokens(rules_meta(rules@)),
            rest == word@.skip(from as int),
            first_match_from(toks, rest, 0) == first_match_from(toks, rest, i as int),
        decreases rules.len() - i,
    {
        assert(toks[i as int] == rules@[i as int].token@);
        if crate::scan::matches_at(word, from, &rules[i].token) {
            return Some(i);
        }
        i += 1;
    }
    None
}

} // verus!
