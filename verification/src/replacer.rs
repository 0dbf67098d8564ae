//! Rules that give a text a title: the first rule whose pattern matches the text says
//! what the title is.

use crate::patterns::{
    is_valid, pattern_views, regex_is_valid, regex_replace, regex_set_first_match, replace,
    set_first_match,
};
use vstd::prelude::*;

verus! {

/// What a replacer made of a text: the index of the rule that matched, and the text with
/// the match replaced as the rule says.
#[derive(Debug, Clone, PartialEq, Eq)]
pub struct RegexSetReplacerMatch {
    pub idx: usize,
    pub replacement: String,
}

/// A list of rules, each a pattern and a replacement.
#[derive(Debug)]
pub struct RegexSetReplacer {
    patterns: Vec<String>,
    replacements: Vec<String>,
}

/// The index of the first rule that cannot be used: its pattern is no regular expression.
#[derive(Debug, Clone, Copy, PartialEq, Eq, Structural)]
pub struct InvalidPattern {
    pub idx: usize,
}

impl RegexSetReplacer {
    #[verifier::type_invariant]
    pub closed spec fn inv(self) -> bool {
        self.patterns@.len() == self.replacements@.len()
    }

    /// The patterns of the rules, in order.
    pub closed spec fn patterns(self) -> Seq<Seq<char>> {
        pattern_views(self.patterns@)
    }

    /// The replacements of the rules, in order.
    pub closed spec fn replacements(self) -> Seq<Seq<char>> {
        pattern_views(self.replacements@)
    }

    /// What the rules make of `haystack`: the first rule that matches, and `haystack` with
    /// the leftmost match of that rule's pattern replaced by the rule's replacement.
    pub open spec fn match_spec(self, haystack: Seq<char>) -> Option<(nat, Seq<char>)> {
        match regex_set_first_match(self.patterns(), haystack) {
            Some(idx) => if idx < self.patterns().len() && idx < self.replacements().len() {
                match regex_replace(self.patterns()[idx as int], haystack, self.replacements()[idx as int]) {
                    Some(text) => Some((idx, text)),
                    None => None,
                }
            } else {
                None
            },
            None => None,
        }
    }

    /// The replacer with the given rules, each a pattern and a replacement, or the first
    /// rule whose pattern is no regular expression.
    pub fn new(rules: Vec<(String, String)>) -> (replacer: Result<RegexSetReplacer, InvalidPattern>)
        ensures
            match replacer {
                Ok(r) => {
                    &&& r.patterns().len() == rules@.len()
                    &&& r.replacements().len() == rules@.len()
                    &&& forall|i: int|
                        0 <= i < rules@.len() ==> #[trigger] r.patterns()[i] == rules@[i].0@
                            && r.replacements()[i] == rules@[i].1@
                    &&& forall|i: int| 0 <= i < rules@.len() ==> regex_is_valid(#[trigger] rules@[i].0@)
                },
                Err(error) => {
                    &&& error.idx < rules@.len()
                    &&& !regex_is_valid(rules@[error.idx as int].0@)
                    &&& forall|i: int| 0 <= i < error.idx ==> regex_is_valid(#[trigger] rules@[i].0@)
                },
            },
    {
        let mut patterns: Vec<String> = Vec::new();
        let mut replacements: Vec<String> = Vec::new();
        let mut i: usize = 0;
        while i < rules.len()
            invariant
                i <= rules@.len(),
                patterns@.len() == i,
                replacements@.len() == i,
                forall|j: int| 0 <= j < i ==> (#[trigger] patterns@[j])@ == rules@[j].0@,
                forall|j: int| 0 <= j < i ==> (#[trigger] replacements@[j])@ == rules@[j].1@,
                forall|j: int| 0 <= j < i ==> regex_is_valid(#[trigger] rules@[j].0@),
            decreases rules@.len() - i,
        {
            let rule = &rules[i];
            if !is_valid(rule.0.as_str()) {
                return Err(InvalidPattern { idx: i });
            }
            let pattern = rule.0.clone();
            let replacement = rule.1.clone();
            let ghost had_patterns = patterns@;
            let ghost had_replacements = replacements@;
            patterns.push(pattern);
            replacements.push(replacement);
            proof {
                assert forall|j: int| 0 <= j < i + 1 implies (#[trigger] patterns@[j])@
                    == rules@[j].0@ by {
                    if j < i {
                        assert(patterns@[j] == had_patterns[j]);
                    }
                }
                assert forall|j: int| 0 <= j < i + 1 implies (#[trigger] replacements@[j])@
                    == rules@[j].1@ by {
                    if j < i {
                        assert(replacements@[j] == had_replacements[j]);
                    }
                }
            }
            i += 1;
        }
        let replacer = RegexSetReplacer { patterns, replacements };
        proof {
            assert forall|i: int| 0 <= i < rules@.len() implies #[trigger] replacer.patterns()[i]
                == rules@[i].0@ && replacer.replacements()[i] == rules@[i].1@ by {
                assert(replacer.patterns@[i]@ == rules@[i].0@);
                assert(replacer.replacements@[i]@ == rules@[i].1@);
            }
        }
        Ok(replacer)
    }

    /// The title that the rules give `haystack`: that of the first rule whose pattern
    /// matches; `None` where no rule matches.
    pub fn match_and_replace(&self, haystack: &str) -> (found: Option<RegexSetReplacerMatch>)
        ensures
            match self.match_spec(haystack@) {
                Some((idx, text)) => found matches Some(m) && m.idx == idx && m.replacement@ == text,
                None => found is None,
            },
    {
        proof {
            use_type_invariant(self);
        }
        match set_first_match(&self.patterns, haystack) {
            Some(idx) => {
                proof {
                    assert(self.patterns()[idx as int] == self.patterns@[idx as int]@);
                    assert(self.replacements()[idx as int] == self.replacements@[idx as int]@);
                }
                match replace(
                    self.patterns[idx].as_str(),
                    haystack,
                    self.replacements[idx].as_str(),
                ) {
                    Some(replacement) => Some(RegexSetReplacerMatch { idx, replacement }),
                    None => None,
                }
            },
            None => None,
        }
    }
}

} // verus!
