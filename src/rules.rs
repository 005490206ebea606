//! Compiling an ordered list of rules, and applying the whole chain of
//! rules to one line of text.

use vstd::prelude::*;
use crate::matcher::{compile_pattern, error_text, has_match, pattern_compiles, pattern_of, replace_every, replace_pass};

verus! {

/// Why a scrubbing call failed.
#[derive(Debug, PartialEq, Eq)]
pub enum ScrubError {
    /// A pattern text that does not compile, with the compiler's reason.
    InvalidPattern { pattern: String, reason: String },
    /// Input bytes that are not valid UTF-8, with the decoder's reason.
    InvalidUtf8 { reason: String },
}

/// The rules as text: pattern and replacement template, in order.
pub open spec fn rules_view(rules: Seq<(String, String)>) -> Seq<(Seq<char>, Seq<char>)> {
    rules.map_values(|r: (String, String)| (r.0@, r.1@))
}

/// Every pattern of the rules compiles.
pub open spec fn all_compile(rules: Seq<(Seq<char>, Seq<char>)>) -> bool {
    forall|i: int| 0 <= i < rules.len() ==> pattern_compiles(#[trigger] rules[i].0)
}

/// `k` is the position of the first rule whose pattern does not compile.
pub open spec fn first_invalid(rules: Seq<(Seq<char>, Seq<char>)>, k: int) -> bool {
    &&& 0 <= k < rules.len()
    &&& !pattern_compiles(rules[k].0)
    &&& all_compile(rules.take(k))
}

/// The text after applying the rules one after another: each rule sees the
/// output of the one before it.
pub open spec fn apply_rules(rules: Seq<(Seq<char>, Seq<char>)>, text: Seq<char>) -> Seq<char>
    decreases rules.len(),
{
    if rules.len() == 0 {
        text
    } else {
        let last = rules.last();
        replace_pass(last.0, apply_rules(rules.drop_last(), text), last.1)
    }
}

/// A validated, ordered, immutable list of compiled rules.
pub struct RuleSet {
    rules: Vec<(regex::Regex, String)>,
}

impl View for RuleSet {
    type V = Seq<(Seq<char>, Seq<char>)>;

    closed spec fn view(&self) -> Seq<(Seq<char>, Seq<char>)> {
        self.rules@.map_values(|r: (regex::Regex, String)| (pattern_of(r.0), r.1@))
    }
}

impl RuleSet {
    /// Compiles the rules in the order given. Fails on the first pattern that
    /// does not compile, and then no rule set exists.
    pub fn compile(rules: &[(String, String)]) -> (r: Result<RuleSet, ScrubError>)
        ensures
            r is Ok <==> all_compile(rules_view(rules@)),
            r matches Ok(set) ==> set@ == rules_view(rules@),
            r matches Err(e) ==> exists|k: int|
                first_invalid(rules_view(rules@), k) && e == (ScrubError::InvalidPattern {
                    pattern: rules@[k].0,
                    reason: e->InvalidPattern_reason,
                }),
    {
        let mut compiled: Vec<(regex::Regex, String)> = Vec::new();
        let ghost view = rules_view(rules@);
        let mut i: usize = 0;
        while i < rules.len()
            invariant
                0 <= i <= rules.len(),
                view == rules_view(rules@),
                all_compile(view.take(i as int)),
                compiled@.len() == i,
                (RuleSet { rules: compiled })@ == view.take(i as int),
            decreases rules.len() - i,
        {
            let pattern = &rules[i].0;
            match compile_pattern(pattern.as_str()) {
                Ok(re) => {
                    compiled.push((re, rules[i].1.clone()));
                    i = i + 1;
                    proof {
                        assert((RuleSet { rules: compiled })@ =~= view.take(i as int));
                        assert forall|j: int| 0 <= j < i implies pattern_compiles(
                            #[trigger] view.take(i as int)[j].0,
                        ) by {
                            if j < i - 1 {
                                assert(view.take(i as int)[j] == view.take(i - 1)[j]);
                            }
                        }
                    }
                },
                Err(e) => {
                    let reason = error_text(&e);
                    proof {
                        assert(view[i as int].0 == pattern@);
                        assert(first_invalid(view, i as int));
                    }
                    return Err(ScrubError::InvalidPattern { pattern: pattern.clone(), reason });
                },
            }
        }
        proof {
            assert(view.take(i as int) =~= view);
        }
        Ok(RuleSet { rules: compiled })
    }

    /// The number of rules.
    pub fn len(&self) -> (n: usize)
        ensures
            n == self@.len(),
    {
        self.rules.len()
    }
}

/// Applies every rule, in order, to one line.
pub fn scrub_line(line: &str, rules: &RuleSet) -> (r: String)
    ensures
        r@ == apply_rules(rules@, line@),
{
    let mut result = line.to_owned();
    let mut i: usize = 0;
    while i < rules.rules.len()
        invariant
            0 <= i <= rules.rules.len(),
            result@ == apply_rules(rules@.take(i as int), line@),
        decreases rules.rules.len() - i,
    {
        let rule = &rules.rules[i];
        let next = replace_every(&rule.0, result.as_str(), rule.1.as_str());
        proof {
            assert(rules@.take(i + 1).drop_last() =~= rules@.take(i as int));
        }
        result = next;
        i = i + 1;
    }
    proof {
        assert(rules@.take(i as int) =~= rules@);
    }
    result
}

/// Rule chaining: applying the rules `first` and then the rules `second` to a
/// text is applying `second` to the output of `first`, not applying both to the
/// text they were given.
pub proof fn lemma_rules_chain(
    first: Seq<(Seq<char>, Seq<char>)>,
    second: Seq<(Seq<char>, Seq<char>)>,
    text: Seq<char>,
)
    ensures
        apply_rules(first + second, text) == apply_rules(second, apply_rules(first, text)),
    decreases second.len(),
{
    if second.len() == 0 {
        assert(first + second =~= first);
    } else {
        assert((first + second).drop_last() =~= first + second.drop_last());
        lemma_rules_chain(first, second.drop_last(), text);
    }
}

/// Identity on no match: a text in which no rule's pattern matches anywhere is
/// returned unchanged.
pub proof fn lemma_no_match_identity(rules: Seq<(Seq<char>, Seq<char>)>, text: Seq<char>)
    requires
        forall|i: int| 0 <= i < rules.len() ==> !has_match(#[trigger] rules[i].0, text),
    ensures
        apply_rules(rules, text) == text,
    decreases rules.len(),
{
    if rules.len() > 0 {
        let rest = rules.drop_last();
        assert forall|i: int| 0 <= i < rest.len() implies !has_match(#[trigger] rest[i].0, text) by {
            assert(rest[i] == rules[i]);
        }
        lemma_no_match_identity(rest, text);
        assert(!has_match(rules[rules.len() - 1].0, text));
    }
}

} // verus!
