//! Per-subscription filter rules: pure predicates over episode metadata,
//! combined with an explicit boolean combinator.  Evaluation is total and
//! per announcement; an absent rule set accepts everything.

use vstd::prelude::*;
use crate::renamer::{BangumiInfo, EpisodeMeta};
use crate::strutil::str_eq;

verus! {

/// Mathematical view of [`FilterRule`].
pub ghost enum RuleView {
    ShowNameIs(Seq<char>),
    MinEpisode(u64),
    TagIs(Seq<char>),
    TagIsNot(Seq<char>),
    CategoryIs(Seq<char>),
}

/// One pure predicate over episode metadata.
#[derive(Debug)]
pub enum FilterRule {
    /// The show name equals the given string.
    ShowNameIs(String),
    /// The episode number is at least the given number.
    MinEpisode(u64),
    /// The release tag equals the given string.
    TagIs(String),
    /// The release tag is absent or differs from the given string.
    TagIsNot(String),
    /// The category equals the given string.
    CategoryIs(String),
}

impl View for FilterRule {
    type V = RuleView;

    open spec fn view(&self) -> RuleView {
        match self {
            FilterRule::ShowNameIs(s) => RuleView::ShowNameIs(s@),
            FilterRule::MinEpisode(n) => RuleView::MinEpisode(*n),
            FilterRule::TagIs(s) => RuleView::TagIs(s@),
            FilterRule::TagIsNot(s) => RuleView::TagIsNot(s@),
            FilterRule::CategoryIs(s) => RuleView::CategoryIs(s@),
        }
    }
}

/// Whether one rule holds of the metadata.
pub open spec fn rule_matches(r: RuleView, m: EpisodeMeta) -> bool {
    match r {
        RuleView::ShowNameIs(n) => m.show_name == n,
        RuleView::MinEpisode(n) => m.episode >= n,
        RuleView::TagIs(t) => m.display_name == Some(t),
        RuleView::TagIsNot(t) => m.display_name != Some(t),
        RuleView::CategoryIs(c) => m.category == Some(c),
    }
}

/// How the rules of a set are combined.
#[derive(Clone, Copy, Debug, PartialEq, Eq, Structural)]
pub enum CombineMode {
    /// Every rule must hold.
    All,
    /// At least one rule must hold; an empty set still accepts.
    Any,
}

/// Mathematical view of [`FilterSet`].
pub ghost struct FilterSetView {
    pub mode: CombineMode,
    pub rules: Seq<RuleView>,
}

/// An ordered list of rules with its combinator.
#[derive(Debug)]
pub struct FilterSet {
    pub mode: CombineMode,
    pub rules: Vec<FilterRule>,
}

impl View for FilterSet {
    type V = FilterSetView;

    open spec fn view(&self) -> FilterSetView {
        FilterSetView { mode: self.mode, rules: self.rules@.map_values(|r: FilterRule| r@) }
    }
}

pub open spec fn all_match(rules: Seq<RuleView>, m: EpisodeMeta) -> bool {
    forall|i: int| 0 <= i < rules.len() ==> rule_matches(rules[i], m)
}

pub open spec fn any_match(rules: Seq<RuleView>, m: EpisodeMeta) -> bool {
    rules.len() == 0 || exists|i: int| 0 <= i < rules.len() && rule_matches(rules[i], m)
}

/// Whether the rule set accepts the metadata.
pub open spec fn set_matches(f: FilterSetView, m: EpisodeMeta) -> bool {
    match f.mode {
        CombineMode::All => all_match(f.rules, m),
        CombineMode::Any => any_match(f.rules, m),
    }
}

impl FilterRule {
    /// Evaluates this rule against the metadata; total, never fails.
    pub fn matches_info(&self, info: &BangumiInfo) -> (r: bool)
        ensures
            r == rule_matches(self@, info@),
    {
        match self {
            FilterRule::ShowNameIs(n) => str_eq(info.show_name.as_str(), n.as_str()),
            FilterRule::MinEpisode(n) => info.episode >= *n,
            FilterRule::TagIs(t) => match &info.display_name {
                Some(d) => str_eq(d.as_str(), t.as_str()),
                None => false,
            },
            FilterRule::TagIsNot(t) => match &info.display_name {
                Some(d) => !str_eq(d.as_str(), t.as_str()),
                None => true,
            },
            FilterRule::CategoryIs(c) => match &info.category {
                Some(d) => str_eq(d.as_str(), c.as_str()),
                None => false,
            },
        }
    }
}

impl FilterSet {
    /// Evaluates the whole rule set against the metadata; total, never
    /// fails.
    pub fn is_match(&self, info: &BangumiInfo) -> (r: bool)
        ensures
            r == set_matches(self@, info@),
    {
        if self.mode == CombineMode::All {
            let mut i: usize = 0;
            while i < self.rules.len()
                invariant
                    self.mode == CombineMode::All,
                    i <= self.rules@.len(),
                    forall|j: int| 0 <= j < i ==> rule_matches(self@.rules[j], info@),
                decreases self.rules@.len() - i,
            {
                proof {
                    assert(self@.rules[i as int] == self.rules@[i as int]@);
                }
                if !self.rules[i].matches_info(info) {
                    proof {
                        assert(!rule_matches(self@.rules[i as int], info@));
                        assert(!all_match(self@.rules, info@));
                        assert(self@.mode == CombineMode::All);
                        assert(!set_matches(self@, info@));
                    }
                    return false;
                }
                i = i + 1;
            }
            true
        } else {
            if self.rules.len() == 0 {
                return true;
            }
            let mut i: usize = 0;
            while i < self.rules.len()
                invariant
                    self.mode == CombineMode::Any,
                    i <= self.rules@.len(),
                    forall|j: int| 0 <= j < i ==> !rule_matches(self@.rules[j], info@),
                decreases self.rules@.len() - i,
            {
                proof {
                    assert(self@.rules[i as int] == self.rules@[i as int]@);
                }
                if self.rules[i].matches_info(info) {
                    proof {
                        assert(rule_matches(self@.rules[i as int], info@));
                        assert(any_match(self@.rules, info@));
                        assert(self@.mode == CombineMode::Any);
                        assert(set_matches(self@, info@));
                    }
                    return true;
                }
                i = i + 1;
            }
            false
        }
    }
}

proof fn lemma_same_multiset_contains(a: Seq<RuleView>, b: Seq<RuleView>, x: RuleView)
    requires
        a.to_multiset() == b.to_multiset(),
        a.contains(x),
    ensures
        b.contains(x),
{
    broadcast use vstd::seq_lib::group_to_multiset_ensures;

    assert(a.to_multiset().count(x) > 0);
    assert(b.to_multiset().count(x) > 0);
}

/// Law: the order in which the rules of a set are written down never
/// affects the result of matching — two sets with the same rules in any
/// order accept exactly the same metadata.
pub proof fn lemma_matches_order_independent(a: FilterSetView, b: FilterSetView, m: EpisodeMeta)
    requires
        a.mode == b.mode,
        a.rules.to_multiset() == b.rules.to_multiset(),
    ensures
        set_matches(a, m) == set_matches(b, m),
{
    broadcast use vstd::seq_lib::group_to_multiset_ensures;

    assert(a.rules.len() == a.rules.to_multiset().len());
    assert(b.rules.len() == b.rules.to_multiset().len());
    if all_match(a.rules, m) {
        assert forall|i: int| 0 <= i < b.rules.len() implies rule_matches(b.rules[i], m) by {
            assert(b.rules.contains(b.rules[i]));
            lemma_same_multiset_contains(b.rules, a.rules, b.rules[i]);
            let j = choose|j: int| 0 <= j < a.rules.len() && a.rules[j] == b.rules[i];
            assert(rule_matches(a.rules[j], m));
        }
    }
    if all_match(b.rules, m) {
        assert forall|i: int| 0 <= i < a.rules.len() implies rule_matches(a.rules[i], m) by {
            assert(a.rules.contains(a.rules[i]));
            lemma_same_multiset_contains(a.rules, b.rules, a.rules[i]);
            let j = choose|j: int| 0 <= j < b.rules.len() && b.rules[j] == a.rules[i];
            assert(rule_matches(b.rules[j], m));
        }
    }
    if any_match(a.rules, m) && a.rules.len() > 0 {
        if exists|i: int| 0 <= i < a.rules.len() && rule_matches(a.rules[i], m) {
            let i = choose|i: int| 0 <= i < a.rules.len() && rule_matches(a.rules[i], m);
            assert(a.rules.contains(a.rules[i]));
            lemma_same_multiset_contains(a.rules, b.rules, a.rules[i]);
            let j = choose|j: int| 0 <= j < b.rules.len() && b.rules[j] == a.rules[i];
            assert(rule_matches(b.rules[j], m));
        }
    }
    if any_match(b.rules, m) && b.rules.len() > 0 {
        if exists|i: int| 0 <= i < b.rules.len() && rule_matches(b.rules[i], m) {
            let i = choose|i: int| 0 <= i < b.rules.len() && rule_matches(b.rules[i], m);
            assert(b.rules.contains(b.rules[i]));
            lemma_same_multiset_contains(b.rules, a.rules, b.rules[i]);
            let j = choose|j: int| 0 <= j < a.rules.len() && a.rules[j] == b.rules[i];
            assert(rule_matches(a.rules[j], m));
        }
    }
}

} // verus!
