//! Deciding which named tests to run.

use vstd::prelude::*;

use crate::text::{contains_str, contains_str_ci, contains_sub, contains_sub_ci};

verus! {

/// A predicate over test names: `should_skip` decides whether a test is
/// left out of a run.
pub trait Filter: Sized {
    /// What this filter skips, as a predicate over the name's characters.
    spec fn skips(&self, name: Seq<char>) -> bool;

    fn should_skip(&self, s: &str) -> (r: bool)
        ensures
            r == self.skips(s@),
    ;
}

/// A set of substrings with polarity: a name matches when any of the
/// substrings occurs in it, case-insensitively unless `case_sensitive`.
/// With `positive` the matching tests run and the rest are skipped;
/// without it the matching tests are skipped.
pub struct StringMatch {
    pub matcher: Vec<String>,
    pub positive: bool,
    pub case_sensitive: bool,
}

impl StringMatch {
    /// Whether any configured substring occurs in `name`.
    pub open spec fn matched(&self, name: Seq<char>) -> bool {
        exists|k: int|
            0 <= k < self.matcher@.len() && if self.case_sensitive {
                contains_sub(name, self.matcher@[k]@)
            } else {
                contains_sub_ci(name, self.matcher@[k]@)
            }
    }
}

impl Filter for StringMatch {
    open spec fn skips(&self, name: Seq<char>) -> bool {
        if self.positive {
            !self.matched(name)
        } else {
            self.matched(name)
        }
    }

    fn should_skip(&self, s: &str) -> (r: bool)
        ensures
            r == self.skips(s@),
    {
        let mut k: usize = 0;
        let mut matched = false;
        while k < self.matcher.len()
            invariant
                k <= self.matcher@.len(),
                matched == exists|j: int|
                    0 <= j < k && if self.case_sensitive {
                        contains_sub(s@, self.matcher@[j]@)
                    } else {
                        contains_sub_ci(s@, self.matcher@[j]@)
                    },
            decreases self.matcher@.len() - k,
        {
            let here = if self.case_sensitive {
                contains_str(s, self.matcher[k].as_str())
            } else {
                contains_str_ci(s, self.matcher[k].as_str())
            };
            if here {
                matched = true;
            }
            k += 1;
        }
        if self.positive {
            !matched
        } else {
            matched
        }
    }
}

/// What [`glob::Pattern::matches_with`] returns for a pattern, a name and a
/// case flag: a function of those three values alone.
pub uninterp spec fn glob_match(pattern: glob::Pattern, name: Seq<char>, case_sensitive: bool) -> bool;

#[verifier::external_type_specification]
#[verifier::external_body]
pub struct ExPattern(glob::Pattern);

/// Relies on `glob::Pattern::matches_with` with the default match options
/// and the given case sensitivity; the result depends on the pattern, the
/// name and the flag alone.
#[verifier::external_body]
fn pattern_matches(p: &glob::Pattern, name: &str, case_sensitive: bool) -> (r: bool)
    ensures
        r == glob_match(*p, name@, case_sensitive),
{
    let options = glob::MatchOptions { case_sensitive, ..glob::MatchOptions::default() };
    p.matches_with(name, options)
}

/// A glob pattern with polarity: with `positive` the tests whose names match
/// the pattern run and the rest are skipped; without it the matching tests
/// are skipped.
pub struct GlobPattern {
    pub matcher: glob::Pattern,
    pub positive: bool,
    pub case_sensitive: bool,
}

impl Filter for GlobPattern {
    open spec fn skips(&self, name: Seq<char>) -> bool {
        if self.positive {
            !glob_match(self.matcher, name, self.case_sensitive)
        } else {
            glob_match(self.matcher, name, self.case_sensitive)
        }
    }

    fn should_skip(&self, s: &str) -> (r: bool)
        ensures
            r == self.skips(s@),
    {
        let result = pattern_matches(&self.matcher, s, self.case_sensitive);
        if self.positive {
            !result
        } else {
            result
        }
    }
}

/// The filters a run configuration can carry, as a closed set of variants.
pub enum FilterChoice {
    Substring(StringMatch),
    Glob(GlobPattern),
}

impl Filter for FilterChoice {
    open spec fn skips(&self, name: Seq<char>) -> bool {
        match self {
            FilterChoice::Substring(m) => m.skips(name),
            FilterChoice::Glob(g) => g.skips(name),
        }
    }

    fn should_skip(&self, s: &str) -> (r: bool)
        ensures
            r == self.skips(s@),
    {
        match self {
            FilterChoice::Substring(m) => m.should_skip(s),
            FilterChoice::Glob(g) => g.should_skip(s),
        }
    }
}

} // verus!
