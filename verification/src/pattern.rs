//! Patterns with a wildcard `*` at either end, for picking names.

use vstd::prelude::*;
use vstd::string::*;
use crate::text::{
    chars_of, contains, ends_with, has_part, has_prefix, has_suffix, same, starts_with,
};

verus! {

/// What a [`Pattern`] holds.
pub enum PatternView {
    Exact(Seq<char>),
    StartsWith(Seq<char>),
    EndsWith(Seq<char>),
    Contains(Seq<char>),
}

impl PatternView {
    /// Whether `value` matches the target string in the way the pattern asks for.
    pub open spec fn matches(self, value: Seq<char>) -> bool {
        match self {
            PatternView::Exact(target) => value == target,
            PatternView::StartsWith(target) => has_prefix(value, target),
            PatternView::EndsWith(target) => has_suffix(value, target),
            PatternView::Contains(target) => has_part(value, target),
        }
    }
}

/// Kind of pattern to test
///
/// `Exact`: Value matches exactly with pattern.
/// Use no wildcards to identify
///
/// `StartsWith`: Value starts with target string in pattern.
/// Use wildcard `*` at end of pattern to identify
///
/// `EndsWith`: Value ends with target string in pattern.
/// Use wildcard `*` at start of pattern to identify
///
/// `Contains`: Value is somewhere within target string in pattern.
/// Use wildcard `*` at start and end of pattern to identify
#[derive(Debug)]
pub enum Pattern {
    /// `Exact`: Value matches exactly with pattern.
    /// Use no wildcards to identify
    Exact(String),
    /// `StartsWith`: Value starts with target string in pattern.
    /// Use wildcard `*` at end of pattern to identify
    StartsWith(String),
    /// `EndsWith`: Value ends with target string in pattern.
    /// Use wildcard `*` at start of pattern to identify
    EndsWith(String),
    /// `Contains`: Value is somewhere within target string in pattern.
    /// Use wildcard `*` at start and end of pattern to identify
    Contains(String),
}

impl View for Pattern {
    type V = PatternView;

    open spec fn view(&self) -> PatternView {
        match self {
            Pattern::Exact(target) => PatternView::Exact(target@),
            Pattern::StartsWith(target) => PatternView::StartsWith(target@),
            Pattern::EndsWith(target) => PatternView::EndsWith(target@),
            Pattern::Contains(target) => PatternView::Contains(target@),
        }
    }
}

/// `s` without its first character; the empty string stays empty.
pub open spec fn without_first(s: Seq<char>) -> Seq<char> {
    if s.len() == 0 {
        s
    } else {
        s.subrange(1, s.len() as int)
    }
}

/// `s` without its last character; the empty string stays empty.
pub open spec fn without_last(s: Seq<char>) -> Seq<char> {
    if s.len() == 0 {
        s
    } else {
        s.subrange(0, s.len() - 1)
    }
}

/// The pattern that a string stands for: a `*` at its start or end is a
/// wildcard, and what is left is the target string.
pub open spec fn parse(s: Seq<char>) -> PatternView {
    let open_start = s.len() > 0 && s.first() == '*';
    let open_end = s.len() > 0 && s.last() == '*';
    if open_start {
        if open_end {
            PatternView::Contains(without_last(without_first(s)))
        } else {
            PatternView::EndsWith(without_first(s))
        }
    } else {
        if open_end {
            PatternView::StartsWith(without_last(s))
        } else {
            PatternView::Exact(s)
        }
    }
}

impl Pattern {
    /// Parse `Pattern` from string
    ///
    /// Use wildcard `*` at start and/or end to identify `Pattern` variant
    pub fn from(pattern: &str) -> (parsed: Pattern)
        ensures
            parsed@ == parse(pattern@),
    {
        let len = pattern.unicode_len();
        let open_start = len > 0 && pattern.get_char(0) == '*';
        let open_end = len > 0 && pattern.get_char(len - 1) == '*';
        if open_start {
            if open_end {
                Pattern::Contains(remove_first_last_char(pattern).to_owned())
            } else {
                Pattern::EndsWith(remove_first_char(pattern).to_owned())
            }
        } else {
            if open_end {
                Pattern::StartsWith(remove_last_char(pattern).to_owned())
            } else {
                Pattern::Exact(pattern.to_owned())
            }
        }
    }

    /// Test if string value matches target string in pattern
    pub fn matches(&self, value: &str) -> (matched: bool)
        ensures
            matched == self@.matches(value@),
    {
        let value = chars_of(value);
        match self {
            Pattern::Exact(target) => same(&value, &chars_of(target.as_str())),
            Pattern::StartsWith(target) => starts_with(&value, &chars_of(target.as_str())),
            Pattern::EndsWith(target) => ends_with(&value, &chars_of(target.as_str())),
            Pattern::Contains(target) => contains(&value, &chars_of(target.as_str())),
        }
    }
}

/// Remove first character of string
pub fn remove_first_char<'a>(s: &'a str) -> (rest: &'a str)
    ensures
        rest@ == without_first(s@),
{
    let len = s.unicode_len();
    if len == 0 {
        s
    } else {
        s.substring_char(1, len)
    }
}

/// Remove last character of string
pub fn remove_last_char<'a>(s: &'a str) -> (rest: &'a str)
    ensures
        rest@ == without_last(s@),
{
    let len = s.unicode_len();
    if len == 0 {
        s
    } else {
        s.substring_char(0, len - 1)
    }
}

/// Remove first and last character of string
pub fn remove_first_last_char<'a>(s: &'a str) -> (rest: &'a str)
    ensures
        rest@ == without_last(without_first(s@)),
{
    remove_last_char(remove_first_char(s))
}

} // verus!
