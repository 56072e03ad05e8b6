//! The production engine: a word and a registry of production rules, and
//! the generation step that rewrites every occurrence of every registered
//! token simultaneously, based on the word as it stood before the step.
//!
//! A production rule maps a token to a replacement generator.  A generator is
//! stateful: distinct firings may return distinct texts, so a rule is a value
//! of a type implementing [`Generate`] rather than a fixed string.  The
//! rewrite itself is defined by the spec function [`rewrite`]: the word is
//! scanned left to right, at each position the first registered rule whose
//! token starts there fires (so of two overlapping matches the one starting
//! earlier wins, and of two starting together the one registered earlier),
//! and text under no match is copied through unchanged.

use vstd::prelude::*;

use crate::scan::first_match;
use crate::scan::first_match_from;
use crate::scan::lemma_first_match_from;
use crate::scan::token_at;

verus! {

/// A stateful replacement generator: each firing of a production rule calls
/// `produce` once, and the text it returns may differ from firing to firing.
pub trait Generate: Sized {
    /// The text that the next call of `produce` returns.
    spec fn current(&self) -> Seq<char>;

    /// The generator's state after one call of `produce`.
    spec fn next_state(&self) -> Self;

    /// Produce the replacement text for one fired occurrence of the token.
    fn produce(&mut self) -> (r: Vec<char>)
        ensures
            r@ == old(self).current(),
            *final(self) == old(self).next_state(),
    ;
}

/// A generator that returns the same text on every firing.
pub struct ConstGen {
    pub text: Vec<char>,
}

impl ConstGen {
    pub fn new(text: Vec<char>) -> (r: ConstGen)
        ensures
            r.text == text,
    {
        ConstGen { text }
    }
}

impl Generate for ConstGen {
    open spec fn current(&self) -> Seq<char> {
        self.text@
    }

    open spec fn next_state(&self) -> Self {
        *self
    }

    fn produce(&mut self) -> (r: Vec<char>) {
        crate::scan::clone_chars(&self.text)
    }
}

/// A generator with an internal counter: it walks its list of texts and
/// returns the next one on each firing, wrapping around at the end.  Two
/// occurrences of one token within one step receive two successive texts.
pub struct CycleGen {
    pub texts: Vec<Vec<char>>,
    pub next: usize,
}

impl CycleGen {
    /// A generator that starts at the first text of `texts`.
    pub fn new(texts: Vec<Vec<char>>) -> (r: CycleGen)
        ensures
            r.texts == texts,
            r.next == 0,
    {
        CycleGen { texts, next: 0 }
    }
}

impl Generate for CycleGen {
    open spec fn current(&self) -> Seq<char> {
        if self.next < self.texts@.len() {
            self.texts@[self.next as int]@
        } else {
            Seq::empty()
        }
    }

    open spec fn next_state(&self) -> Self {
        CycleGen {
            texts: self.texts,
            next: if self.texts@.len() > 0 && self.next < self.texts@.len() - 1 {
                (self.next + 1) as usize
            } else {
                0
            },
        }
    }

    fn produce(&mut self) -> (r: Vec<char>) {
        let r = if self.next < self.texts.len() {
            crate::scan::clone_chars(&self.texts[self.next])
        } else {
            Vec::new()
        };
        self.next = if self.texts.len() > 0 && self.next < self.texts.len() - 1 {
            self.next + 1
        } else {
            0
        };
        r
    }
}

/// One registered production rule: a trigger token and its generator.
pub struct ProductionRule<G> {
    pub token: Vec<char>,
    pub gen: G,
}

/// The registry as the specs see it: a sequence, in registration order, of
/// token text and generator state.
pub open spec fn rules_view<G>(rules: Seq<ProductionRule<G>>) -> Seq<(Seq<char>, G)> {
    rules.map_values(|r: ProductionRule<G>| (r.token@, r.gen))
}

/// The tokens of the registry, in registration order.
pub open spec fn rule_tokens<G>(rules: Seq<(Seq<char>, G)>) -> Seq<Seq<char>> {
    rules.map_values(|r: (Seq<char>, G)| r.0)
}

/// One generation of the rewrite, together with the generator states it
/// leaves behind.  The input is scanned left to right; where the earliest
/// (then first-registered) rule token starts, that rule's generator fires and
/// its text replaces the token; everything else is copied through.  All
/// matches are found against `input` itself, never against replacement text.
pub open spec fn rewrite<G: Generate>(input: Seq<char>, rules: Seq<(Seq<char>, G)>) -> (Seq<
    char,
>, Seq<(Seq<char>, G)>)
    decreases input.len(),
{
    if input.len() == 0 {
        (Seq::empty(), rules)
    } else {
        match first_match(rule_tokens(rules), input) {
            Some(i) => {
                let tok = rules[i].0;
                let gen = rules[i].1;
                // a matched token is non-empty and no longer than the input
                let step: int = if 1 <= tok.len() <= input.len() {
                    tok.len() as int
                } else {
                    1
                };
                let tail = rewrite(input.skip(step), rules.update(i, (tok, gen.next_state())));
                (gen.current() + tail.0, tail.1)
            },
            None => {
                let tail = rewrite(input.skip(1), rules);
                (seq![input[0]] + tail.0, tail.1)
            },
        }
    }
}

/// `n` generations of the rewrite, applied in sequence.
pub open spec fn rewrite_n<G: Generate>(input: Seq<char>, rules: Seq<(Seq<char>, G)>, n: nat) -> (
    Seq<char>,
    Seq<(Seq<char>, G)>,
)
    decreases n,
{
    if n == 0 {
        (input, rules)
    } else {
        let one = rewrite(input, rules);
        rewrite_n(one.0, one.1, (n - 1) as nat)
    }
}

/// Zero generations leave the word and every generator unchanged, whatever
/// the rule set.
pub proof fn lemma_rewrite_n_zero<G: Generate>(input: Seq<char>, rules: Seq<(Seq<char>, G)>)
    ensures
        rewrite_n(input, rules, 0) == (input, rules),
{
}

/// Stepping `a` generations and then `b` more is stepping `a + b`
/// generations: advancing by parts and advancing at once agree.
pub proof fn lemma_rewrite_n_adds<G: Generate>(
    input: Seq<char>,
    rules: Seq<(Seq<char>, G)>,
    a: nat,
    b: nat,
)
    ensures
        ({
            let first = rewrite_n(input, rules, a);
            rewrite_n(first.0, first.1, b) == rewrite_n(input, rules, a + b)
        }),
    decreases a,
{
    if a > 0 {
        let one = rewrite(input, rules);
        lemma_rewrite_n_adds(one.0, one.1, (a - 1) as nat, b);
    }
}

/// The index of the first registered rule whose token equals `tok`, searching
/// from position `i`.
pub open spec fn find_token_from<G>(rules: Seq<(Seq<char>, G)>, tok: Seq<char>, i: int) -> Option<
    int,
>
    decreases rules.len() - i,
{
    if i < 0 || i >= rules.len() {
        None
    } else if rules[i].0 == tok {
        Some(i)
    } else {
        find_token_from(rules, tok, i + 1)
    }
}

/// The production engine: the current word and the registered rules.
pub struct LSystem<G> {
    pub word: Vec<char>,
    pub production_rules: Vec<ProductionRule<G>>,
}

impl<G: Generate> LSystem<G> {
    /// A system over `word` with no rules registered.
    pub fn new(word: Vec<char>) -> (r: LSystem<G>)
        ensures
            r.word == word,
            r.production_rules@.len() == 0,
    {
        Self::with_rules(word, Vec::new())
    }

    /// A system over `word` with the given rules already registered, in the
    /// order they stand in `production_rules`.  Tokens are non-empty.
    pub fn with_rules(word: Vec<char>, production_rules: Vec<ProductionRule<G>>) -> (r: LSystem<
        G,
    >)
        requires
            forall|i: int|
                0 <= i < production_rules.len() ==> (#[trigger] production_rules[i].token@).len()
                    > 0,
        ensures
            r.word == word,
            r.production_rules == production_rules,
    {
        LSystem { word, production_rules }
    }

    /// Register `gen` for the non-empty token `token`.  If the token already
    /// has a rule, the new generator replaces the old one in place; otherwise
    /// the rule is appended to the registry.
    pub fn register_production_rule(&mut self, token: Vec<char>, gen: G)
        requires
            token@.len() > 0,
        ensures
            match find_token_from(rules_view(old(self).production_rules@), token@, 0) {
                Some(j) => rules_view(final (self).production_rules@) == rules_view(
                    old(self).production_rules@,
                ).update(j, (token@, gen)),
                None => rules_view(final (self).production_rules@) == rules_view(
                    old(self).production_rules@,
                ).push((token@, gen)),
            },
            final (self).word == old(self).word,
    {
        let ghost orig = rules_view(self.production_rules@);
        let mut i: usize = 0;
        while i < self.production_rules.len()
            invariant
                i <= self.production_rules.len(),
                rules_view(self.production_rules@) == orig,
                self.word == old(self).word,
                self.production_rules@ == old(self).production_rules@,
                find_token_from(orig, token@, 0) == find_token_from(orig, token@, i as int),
            decreases self.production_rules.len() - i,
        {
            assert(orig[i as int].0 == self.production_rules@[i as int].token@);
            if crate::scan::chars_equal(&self.production_rules[i].token, &token) {
                let _replaced = self.production_rules.remove(i);
                self.production_rules.insert(i, ProductionRule { token, gen });
                proof {
                    assert(rules_view(self.production_rules@) =~= orig.update(
                        i as int,
                        (token@, gen),
                    ));
                }
                return ;
            }
            i += 1;
        }
        self.production_rules.push(ProductionRule { token, gen });
        proof {
            assert(rules_view(self.production_rules@) =~= orig.push(
                rules_view(self.production_rules@)[orig.len() as int],
            ));
        }
    }

    /// Advance the word by one generation: every occurrence of every
    /// registered token, found against the word as it stood before the call,
    /// is replaced by its generator's text, and the untouched spans between
    /// them are copied through in their original order.
    pub fn step(&mut self)
        ensures
            final (self).word@ == rewrite(
                old(self).word@,
                rules_view(old(self).production_rules@),
            ).0,
            rules_view(final (self).production_rules@) == rewrite(
                old(self).word@,
                rules_view(old(self).production_rules@),
            ).1,
    {
        let ghost orig_word = self.word@;
        let ghost orig_rules = rules_view(self.production_rules@);
        let mut out: Vec<char> = Vec::new();
        let mut p: usize = 0;
        proof {
            assert(orig_word.skip(0) =~= orig_word);
            assert(out@ + rewrite(orig_word, orig_rules).0 =~= rewrite(orig_word, orig_rules).0);
        }
        while p < self.word.len()
            invariant
                p <= self.word.len(),
                self.word@ == orig_word,
                rewrite(orig_word, orig_rules).0 == out@ + rewrite(
                    orig_word.skip(p as int),
                    rules_view(self.production_rules@),
                ).0,
                rewrite(orig_word, orig_rules).1 == rewrite(
                    orig_word.skip(p as int),
                    rules_view(self.production_rules@),
                ).1,
            decreases self.word.len() - p,
        {
            let ghost cur = rules_view(self.production_rules@);
            let ghost rest = orig_word.skip(p as int);
            proof {
                lemma_first_match_from(rule_tokens(cur), rest, 0);
            }
            match find_rule_at(&self.production_rules, &self.word, p) {
                None => {
                    let c = self.word[p];
                    let ghost out_before = out@;
                    out.push(c);
                    proof {
                        assert(rest[0] == orig_word[p as int]);
                        assert(rest.skip(1) =~= orig_word.skip(p + 1 as int));
                        assert(out_before + (seq![c] + rewrite(rest.skip(1), cur).0) =~= out@
                            + rewrite(rest.skip(1), cur).0);
                    }
                    p += 1;
                },
                Some(i) => {
                    let mut rule = self.production_rules.remove(i);
                    let mut rep = rule.gen.produce();
                    let tok_len = rule.token.len();
                    let ghost tok = rule.token@;
                    self.production_rules.insert(i, rule);
                    proof {
                        assert(token_at(rest, tok));
                        assert(rules_view(self.production_rules@) =~= cur.update(
                            i as int,
                            (tok, cur[i as int].1.next_state()),
                        ));
                        assert(rest.skip(tok.len() as int) =~= orig_word.skip(
                            p + tok_len as int,
                        ));
                    }
                    let ghost out_before = out@;
                    out.append(&mut rep);
                    proof {
                        let tail = rewrite(
                            rest.skip(tok.len() as int),
                            cur.update(i as int, (tok, cur[i as int].1.next_state())),
                        );
                        assert(out_before + (cur[i as int].1.current() + tail.0) =~= out@
                            + tail.0);
                    }
                    p += tok_len;
                },
            }
        }
        proof {
            assert(orig_word.skip(p as int) =~= Seq::<char>::empty());
            assert(out@ + Seq::<char>::empty() =~= out@);
        }
        self.word = out;
    }

    /// Advance the word by `n` generations, one full generation at a time;
    /// each generation rewrites the complete output of the one before it.
    pub fn step_by(&mut self, n: usize)
        ensures
            final (self).word@ == rewrite_n(
                old(self).word@,
                rules_view(old(self).production_rules@),
                n as nat,
            ).0,
            rules_view(final (self).production_rules@) == rewrite_n(
                old(self).word@,
                rules_view(old(self).production_rules@),
                n as nat,
            ).1,
    {
        let ghost orig_word = self.word@;
        let ghost orig_rules = rules_view(self.production_rules@);
        let mut k: usize = 0;
        while k < n
            invariant
                k <= n,
                rewrite_n(orig_word, orig_rules, n as nat) == rewrite_n(
                    self.word@,
                    rules_view(self.production_rules@),
                    (n - k) as nat,
                ),
            decreases n - k,
        {
            self.step();
            k += 1;
        }
    }
}

/// Find the first registered rule whose token starts at position `from` of
/// the word, in registration order.
fn find_rule_at<G: Generate>(rules: &Vec<ProductionRule<G>>, word: &Vec<char>, from: usize) -> (r:
    Option<usize>)
    requires
        from <= word.len(),
    ensures
        match r {
            Some(i) => i < rules.len() && first_match(
                rule_tokens(rules_view(rules@)),
                word@.skip(from as int),
            ) == Some(i as int),
            None => first_match(rule_tokens(rules_view(rules@)), word@.skip(from as int)) is None,
        },
{
    let ghost toks = rule_tokens(rules_view(rules@));
    let ghost rest = word@.skip(from as int);
    let mut i: usize = 0;
    while i < rules.len()
        invariant
            from <= word.len(),
            i <= rules.len(),
            toks == rule_tokens(rules_view(rules@)),
            rest == word@.skip(from as int),
            first_match_from(toks, rest, 0) == first_match_from(toks, rest, i as int),
        decreases rules.len() - i,
    {
        assert(toks[i as int] == rules@[i as int].token@);
        if crate::scan::matches_at(word, from, &rules[i].token) {
            return Some(i);
        }
        i += 1;
    }
    None
}

} // verus!
