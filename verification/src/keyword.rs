//! The verb of a SQL statement.

use vstd::prelude::*;

use crate::lines::{trim, trimmed};
use crate::text::{chars_of, is_lower, is_upper, piece, to_upper, upper};

verus! {

pub open spec fn is_letter(c: char) -> bool {
    is_lower(c) || is_upper(c)
}

/// The end of the run of ASCII letters from `i` on.
pub open spec fn letters_end(s: Seq<char>, i: int) -> int
    decreases s.len() - i,
{
    if 0 <= i < s.len() && is_letter(s[i]) {
        letters_end(s, i + 1)
    } else {
        i
    }
}

/// The word that a statement starts with, in upper case.
pub open spec fn keyword(sql: Seq<char>) -> Seq<char> {
    let body = trimmed(sql);
    upper(body.subrange(0, letters_end(body, 0)))
}

/// The word that a statement starts with, in upper case.
pub fn first_keyword(sql: &str) -> (r: String)
    ensures
        r@ == keyword(sql@),
{
    let body = trim(sql);
    let chars = chars_of(body.as_str());
    let mut end: usize = 0;
    while end < chars.len() && (('a' <= chars[end] && chars[end] <= 'z') || ('A' <= chars[end]
        && chars[end] <= 'Z'))
        invariant
            end <= chars@.len(),
            letters_end(chars@, end as int) == letters_end(chars@, 0),
        decreases chars@.len() - end,
    {
        end = end + 1;
    }
    let word = piece(&chars, 0, end);
    to_upper(word.as_str())
}

} // verus!
