//! The matcher primitives: a literal matcher and an ordered selection of
//! literals, behind the shared `Matcher` capability.

use crate::text::lemma_first_prefix_index_found;
use crate::text::lemma_first_prefix_index_none;
use crate::text::is_prefix_at;
use crate::text::seg;
use vstd::prelude::*;
use vstd::string::StrSliceExecFns;

verus! {

pub type MatchedString = String;

pub type LeftoverString = String;

pub type RejectedString = String;

/// Anything that can try to consume a prefix of the input.
///
/// The contract is the ground rule of the whole grammar: on success the
/// consumed prefix and the leftover together are exactly the input, and on
/// failure the rejected value is the input itself, character for character.
pub trait Matcher {
    /// Whether this matcher consumes a prefix of `s`.
    spec fn spec_accepts(&self, s: Seq<char>) -> bool;

    /// The prefix consumed of `s`, meaningful when `spec_accepts(s)` holds.
    spec fn spec_consumed(&self, s: Seq<char>) -> Seq<char>;

    fn try_match(&self, input: String) -> (r: Result<
        (MatchedString, LeftoverString),
        RejectedString,
    >)
        ensures
            (match r {
                Ok(pair) => self.spec_accepts(input@) && pair.0@ == self.spec_consumed(input@)
                    && pair.0@ + pair.1@ == input@,
                Err(rejected) => !self.spec_accepts(input@) && rejected@ == input@,
            }),
    ;
}

/// Matches one fixed literal at the start of the input.
pub struct IndividualMatcher {
    pub individual: String,
}

impl Matcher for IndividualMatcher {
    open spec fn spec_accepts(&self, s: Seq<char>) -> bool {
        self.individual@.is_prefix_of(s)
    }

    open spec fn spec_consumed(&self, s: Seq<char>) -> Seq<char> {
        self.individual@
    }

    fn try_match(&self, input: String) -> (r: Result<
        (MatchedString, LeftoverString),
        RejectedString,
    >) {
        let len = input.as_str().unicode_len();
        let n = self.individual.as_str().unicode_len();
        proof {
            assert(input@.skip(0) =~= input@);
        }
        if is_prefix_at(self.individual.as_str(), input.as_str(), 0) {
            let rest = seg(input.as_str(), n, len);
            proof {
                assert(input@.subrange(n as int, len as int) =~= input@.skip(n as int));
                assert(self.individual@ + input@.skip(n as int) =~= input@);
            }
            Ok((self.individual.clone(), rest))
        } else {
            Err(input)
        }
    }
}

impl From<char> for IndividualMatcher {
    fn from(character: char) -> (r: IndividualMatcher) {
        let mut literal = String::new();
        literal.push(character);
        IndividualMatcher { individual: literal }
    }
}

/// No string value with a given view can be written down in a
/// specification, so this conversion promises nothing through `From`;
/// build the one-character string and use `From<String>` where the
/// literal matters to a proof.
impl vstd::std_specs::convert::FromSpecImpl<char> for IndividualMatcher {
    open spec fn obeys_from_spec() -> bool {
        false
    }

    open spec fn from_spec(v: char) -> Self {
        arbitrary()
    }
}

impl From<String> for IndividualMatcher {
    fn from(string: String) -> (r: IndividualMatcher) {
        IndividualMatcher { individual: string }
    }
}

impl vstd::std_specs::convert::FromSpecImpl<String> for IndividualMatcher {
    open spec fn obeys_from_spec() -> bool {
        true
    }

    open spec fn from_spec(v: String) -> Self {
        IndividualMatcher { individual: v }
    }
}

/// Tries a list of literals in order; the first literal that matches in
/// full wins.
pub struct SelectionMatcher {
    pub selection: Vec<String>,
}

impl SelectionMatcher {
    /// The literals tried, as sequences of characters, in order.
    pub open spec fn lits(&self) -> Seq<Seq<char>> {
        Seq::new(self.selection@.len(), |i: int| self.selection@[i]@)
    }
}

impl Matcher for SelectionMatcher {
    open spec fn spec_accepts(&self, s: Seq<char>) -> bool {
        crate::text::first_prefix_index(self.lits(), s) >= 0
    }

    open spec fn spec_consumed(&self, s: Seq<char>) -> Seq<char> {
        self.lits()[crate::text::first_prefix_index(self.lits(), s)]
    }

    fn try_match(&self, input: String) -> (r: Result<
        (MatchedString, LeftoverString),
        RejectedString,
    >) {
        let len = input.as_str().unicode_len();
        let count = self.selection.len();
        proof {
            assert(input@.skip(0) =~= input@);
        }
        let mut i: usize = 0;
        while i < count
            invariant
                0 <= i <= count,
                count == self.selection@.len(),
                len == input@.len(),
                forall|j: int| 0 <= j < i ==> !(#[trigger] self.lits()[j]).is_prefix_of(input@),
            decreases count - i,
        {
            let lit = &self.selection[i];
            if is_prefix_at(lit.as_str(), input.as_str(), 0) {
                let n = lit.as_str().unicode_len();
                let rest = seg(input.as_str(), n, len);
                proof {
                    lemma_first_prefix_index_found(self.lits(), input@, i as int);
                    assert(input@.subrange(n as int, len as int) =~= input@.skip(n as int));
                    assert(lit@ + input@.skip(n as int) =~= input@);
                }
                return Ok((lit.clone(), rest));
            }
            i = i + 1;
        }
        proof {
            lemma_first_prefix_index_none(self.lits(), input@);
        }
        Err(input)
    }
}

impl From<Vec<String>> for SelectionMatcher {
    fn from(selection: Vec<String>) -> (r: SelectionMatcher) {
        SelectionMatcher { selection }
    }
}

impl vstd::std_specs::convert::FromSpecImpl<Vec<String>> for SelectionMatcher {
    open spec fn obeys_from_spec() -> bool {
        true
    }

    open spec fn from_spec(v: Vec<String>) -> Self {
        SelectionMatcher { selection: v }
    }
}

} // verus!
