//! Text helpers: ASCII-case-insensitive matching and blank detection.

use vstd::prelude::*;

verus! {

/// `a` is `b` or its ASCII capital form; `b` is expected in small letters.
pub open spec fn char_lower_matches(a: char, b: char) -> bool {
    a == b || (65 <= a as u32 && a as u32 <= 90 && a as u32 + 32 == b as u32)
}

/// The name `s` matches `target` (written in small letters) ignoring the
/// ASCII case of `s`.
pub open spec fn name_matches(s: Seq<char>, target: Seq<char>) -> bool {
    s.len() == target.len() && forall|i: int|
        0 <= i < s.len() ==> char_lower_matches(s[i], #[trigger] target[i])
}

/// Decides `name_matches(s@, target@)`.
pub fn str_matches_lower(s: &str, target: &str) -> (r: bool)
    ensures
        r == name_matches(s@, target@),
{
    let n = s.unicode_len();
    let m = target.unicode_len();
    if n != m {
        return false;
    }
    let mut i: usize = 0;
    while i < n
        invariant
            i <= n,
            n == s@.len(),
            n == target@.len(),
            forall|j: int| 0 <= j < i ==> char_lower_matches(s@[j], #[trigger] target@[j]),
        decreases n - i,
    {
        let a = s.get_char(i);
        let b = target.get_char(i);
        let ua = a as u32;
        let ub = b as u32;
        if !(ua == ub || (65 <= ua && ua <= 90 && ua + 32 == ub)) {
            return false;
        }
        i = i + 1;
    }
    true
}

/// An ASCII whitespace character.
pub open spec fn is_space_char(c: char) -> bool {
    c == ' ' || c == '\t' || c == '\n' || c == '\r' || c == '\u{b}' || c == '\u{c}'
}

/// Nothing but whitespace, so the trimmed text is empty.
pub open spec fn is_blank(s: Seq<char>) -> bool {
    forall|i: int| 0 <= i < s.len() ==> is_space_char(#[trigger] s[i])
}

/// Decides `is_blank(s@)`.
pub fn str_is_blank(s: &str) -> (r: bool)
    ensures
        r == is_blank(s@),
{
    let n = s.unicode_len();
    let mut i: usize = 0;
    while i < n
        invariant
            i <= n,
            n == s@.len(),
            forall|j: int| 0 <= j < i ==> is_space_char(#[trigger] s@[j]),
        decreases n - i,
    {
        let c = s.get_char(i);
        if !(c == ' ' || c == '\t' || c == '\n' || c == '\r' || c == '\u{b}' || c == '\u{c}') {
            return false;
        }
        i = i + 1;
    }
    true
}

/// Decides view equality of two text slices.
pub fn str_eq(s: &str, t: &str) -> (r: bool)
    ensures
        r == (s@ == t@),
{
    let n = s.unicode_len();
    let m = t.unicode_len();
    if n != m {
        return false;
    }
    let mut i: usize = 0;
    while i < n
        invariant
            i <= n,
            n == s@.len(),
            n == t@.len(),
            forall|j: int| 0 <= j < i ==> s@[j] == t@[j],
        decreases n - i,
    {
        if s.get_char(i) != t.get_char(i) {
            return false;
        }
        i = i + 1;
    }
    proof {
        assert(s@ =~= t@);
    }
    true
}

} // verus!
