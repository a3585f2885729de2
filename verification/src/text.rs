//! Strings as sequences of characters: prefixes, suffixes and parts.

use vstd::prelude::*;

verus! {

/// Whether `part` stands in `s` at the position `at`.
pub open spec fn occurs_at(s: Seq<char>, part: Seq<char>, at: int) -> bool {
    0 <= at && at + part.len() <= s.len() && s.subrange(at, at + part.len()) == part
}

/// Whether `s` starts with `part`.
pub open spec fn has_prefix(s: Seq<char>, part: Seq<char>) -> bool {
    occurs_at(s, part, 0)
}

/// Whether `s` ends with `part`.
pub open spec fn has_suffix(s: Seq<char>, part: Seq<char>) -> bool {
    occurs_at(s, part, s.len() - part.len())
}

/// Whether `part` stands somewhere in `s`.
pub open spec fn has_part(s: Seq<char>, part: Seq<char>) -> bool {
    exists|at: int| occurs_at(s, part, at)
}

/// The characters of a string.
pub fn chars_of(s: &str) -> (chars: Vec<char>)
    ensures
        chars@ == s@,
{
    let mut chars: Vec<char> = Vec::new();
    for c in it: s.chars()
        invariant
            it.seq() == s@,
            chars@ == s@.take(it.index() as int),
    {
        chars.push(c);
        assert(s@.take(it.index() + 1) == s@.take(it.index() as int).push(c));
    }
    assert(s@.take(s@.len() as int) == s@);
    chars
}

/// Whether `part` stands in `s` at the position `at`.
pub fn stands_at(s: &Vec<char>, part: &Vec<char>, at: usize) -> (found: bool)
    requires
        at + part@.len() <= s@.len(),
    ensures
        found == occurs_at(s@, part@, at as int),
{
    let ghost window = s@.subrange(at as int, at + part@.len());
    let len = s.len();
    let mut k: usize = 0;
    while k < part.len()
        invariant
            k <= part@.len(),
            at + part@.len() <= len,
            len == s@.len(),
            window == s@.subrange(at as int, at + part@.len()),
            forall|j: int| 0 <= j < k ==> window[j] == part@[j],
        decreases part@.len() - k,
    {
        if s[at + k] != part[k] {
            assert(window[k as int] != part@[k as int]);
            return false;
        }
        k += 1;
    }
    assert(window =~= part@);
    true
}

/// Whether `s` starts with `part`.
pub fn starts_with(s: &Vec<char>, part: &Vec<char>) -> (found: bool)
    ensures
        found == has_prefix(s@, part@),
{
    part.len() <= s.len() && stands_at(s, part, 0)
}

/// Whether `s` ends with `part`.
pub fn ends_with(s: &Vec<char>, part: &Vec<char>) -> (found: bool)
    ensures
        found == has_suffix(s@, part@),
{
    part.len() <= s.len() && stands_at(s, part, s.len() - part.len())
}

/// Whether `part` stands somewhere in `s`.
pub fn contains(s: &Vec<char>, part: &Vec<char>) -> (found: bool)
    ensures
        found == has_part(s@, part@),
{
    if part.len() > s.len() {
        return false;
    }
    let last = s.len() - part.len();
    let mut at: usize = 0;
    while at < last
        invariant
            at <= last,
            last == s@.len() - part@.len(),
            forall|j: int| 0 <= j < at ==> !occurs_at(s@, part@, j),
        decreases last - at,
    {
        if stands_at(s, part, at) {
            return true;
        }
        at += 1;
    }
    stands_at(s, part, last)
}

/// Whether two strings hold the same characters.
pub fn same_string(s: &String, other: &String) -> (equal: bool)
    ensures
        equal == (s@ == other@),
{
    *s == *other
}

/// Whether `s` and `other` hold the same characters.
pub fn same(s: &Vec<char>, other: &Vec<char>) -> (equal: bool)
    ensures
        equal == (s@ == other@),
{
    if s.len() != other.len() {
        return false;
    }
    let found = stands_at(s, other, 0);
    assert(s@.subrange(0, s@.len() as int) == s@);
    found
}

} // verus!
