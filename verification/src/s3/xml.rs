//! What is read out of the XML of an object listing.

use vstd::prelude::*;

use crate::text::{chars_of, piece, views};

verus! {

/// Whether a text stands at a place of another.
pub open spec fn stands_at(s: Seq<char>, i: int, word: Seq<char>) -> bool {
    0 <= i && i + word.len() <= s.len() && s.subrange(i, i + word.len()) == word
}

/// The first place from `i` on where a text stands, if any.
pub open spec fn find_text(s: Seq<char>, word: Seq<char>, i: int) -> Option<int>
    decreases s.len() + 1 - i,
{
    if i < 0 || i + word.len() > s.len() {
        None
    } else if stands_at(s, i, word) {
        Some(i)
    } else {
        find_text(s, word, i + 1)
    }
}

proof fn lemma_found(s: Seq<char>, word: Seq<char>, i: int)
    ensures
        match find_text(s, word, i) {
            Some(j) => i <= j && stands_at(s, j, word),
            None => true,
        },
    decreases s.len() + 1 - i,
{
    if !(i < 0 || i + word.len() > s.len()) && !stands_at(s, i, word) {
        lemma_found(s, word, i + 1);
    }
}

fn matches_at(s: &Vec<char>, i: usize, word: &Vec<char>) -> (r: bool)
    requires
        i + word@.len() <= s@.len(),
    ensures
        r == stands_at(s@, i as int, word@),
{
    let ghost part = s@.subrange(i as int, i + word@.len());
    let mut j: usize = 0;
    while j < word.len()
        invariant
            j <= word@.len(),
            i + word@.len() <= s@.len(),
            s.len() == s@.len(),
            part == s@.subrange(i as int, i + word@.len()),
            forall|k: int| 0 <= k < j ==> part[k] == word@[k],
        decreases word@.len() - j,
    {
        if s[i + j] != word[j] {
            assert(part[j as int] != word@[j as int]);
            return false;
        }
        assert(part[j as int] == word@[j as int]);
        j = j + 1;
    }
    assert(part =~= word@);
    true
}

/// Finds the first place from `from` on where a text stands.
pub fn find(s: &Vec<char>, word: &Vec<char>, from: usize) -> (r: Option<usize>)
    requires
        from <= s@.len(),
    ensures
        match find_text(s@, word@, from as int) {
            Some(j) => r matches Some(x) && x == j && from <= j && j + word@.len() <= s@.len()
                && stands_at(s@, j, word@),
            None => r is None,
        },
{
    proof {
        lemma_found(s@, word@, from as int);
    }
    let mut i: usize = from;
    while i <= s.len() && word.len() <= s.len() - i
        invariant
            from <= i <= s@.len(),
            s.len() == s@.len(),
            find_text(s@, word@, from as int) == find_text(s@, word@, i as int),
            match find_text(s@, word@, from as int) {
                Some(j) => from <= j && stands_at(s@, j, word@),
                None => true,
            },
        decreases s@.len() - i,
    {
        if matches_at(s, i, word) {
            return Some(i);
        }
        if i == s.len() {
            assert(find_text(s@, word@, i + 1) is None);
            return None;
        }
        i = i + 1;
    }
    None
}

/// What stands between two texts, at their first place from `i` on.
pub open spec fn between_from(s: Seq<char>, open: Seq<char>, close: Seq<char>, i: int) -> Option<
    (Seq<char>, int),
> {
    match find_text(s, open, i) {
        None => None,
        Some(at) => {
            let start = at + open.len();
            match find_text(s, close, start) {
                None => None,
                Some(end) => Some((s.subrange(start, end), end + close.len())),
            }
        },
    }
}

fn between_at(s: &Vec<char>, open: &Vec<char>, close: &Vec<char>, from: usize) -> (r: Option<
    (String, usize),
>)
    requires
        from <= s@.len(),
    ensures
        match between_from(s@, open@, close@, from as int) {
            Some((inner, next)) => r matches Some(x) && x.0@ == inner && x.1 == next && from
                + open@.len() + close@.len() <= next <= s@.len(),
            None => r is None,
        },
{
    let at: usize = match find(s, open, from) {
        Some(at) => at,
        None => {
            return None;
        },
    };
    let size: usize = s.len();
    assert(at + open@.len() <= size);
    let start: usize = at + open.len();
    match find(s, close, start) {
        Some(end) => Some((piece(s, start, end), end + close.len())),
        None => None,
    }
}

/// What stands between two texts, where both do.
pub fn between(s: &str, open: &str, close: &str) -> (r: Option<String>)
    ensures
        match between_from(s@, open@, close@, 0) {
            Some((inner, _)) => r matches Some(x) && x@ == inner,
            None => r is None,
        },
{
    let chars = chars_of(s);
    match between_at(&chars, &chars_of(open), &chars_of(close), 0) {
        Some((inner, _)) => Some(inner),
        None => None,
    }
}

/// Everything that stands between two texts, one after the other, from `i` on.
pub open spec fn all_between(s: Seq<char>, open: Seq<char>, close: Seq<char>, i: int) -> Seq<
    Seq<char>,
>
    decreases s.len() - i,
{
    match between_from(s, open, close, i) {
        None => Seq::empty(),
        Some((inner, next)) => if i < next <= s.len() {
            seq![inner] + all_between(s, open, close, next)
        } else {
            Seq::empty()
        },
    }
}

/// Everything that stands between two texts, one after the other.
pub fn between_all(s: &str, open: &str, close: &str) -> (r: Vec<String>)
    requires
        open@.len() > 0,
    ensures
        views(r@) == all_between(s@, open@, close@, 0),
{
    let chars = chars_of(s);
    let first = chars_of(open);
    let last = chars_of(close);
    let mut out: Vec<String> = Vec::new();
    let mut at: usize = 0;
    assert(views(out@) =~= Seq::empty());
    assert(views(out@) + all_between(s@, open@, close@, 0) =~= all_between(s@, open@, close@, 0));
    loop
        invariant
            at <= chars@.len(),
            chars@ == s@,
            first@ == open@,
            last@ == close@,
            open@.len() > 0,
            views(out@) + all_between(s@, open@, close@, at as int) == all_between(
                s@,
                open@,
                close@,
                0,
            ),
        decreases chars@.len() - at,
    {
        let ghost before = out@;
        match between_at(&chars, &first, &last, at) {
            Some((inner, next)) => {
                let ghost text = inner@;
                out.push(inner);
                proof {
                    assert(views(out@) =~= views(before).push(text));
                    let rest = all_between(s@, open@, close@, next as int);
                    assert(views(before) + (seq![text] + rest) =~= views(out@) + rest);
                }
                at = next;
            },
            None => {
                assert(views(out@) + Seq::<Seq<char>>::empty() =~= views(out@));
                return out;
            },
        }
    }
}

/// A text with another in the place of every occurrence of a word, from `i` on.
pub open spec fn replaced(s: Seq<char>, word: Seq<char>, by: Seq<char>, i: int) -> Seq<char>
    decreases s.len() - i,
{
    if i < 0 || i >= s.len() {
        Seq::empty()
    } else if word.len() > 0 && stands_at(s, i, word) {
        by + replaced(s, word, by, i + word.len())
    } else {
        seq![s[i]] + replaced(s, word, by, i + 1)
    }
}

/// Puts a text in the place of every occurrence of a word.
pub fn replace(s: &str, word: &str, by: &str) -> (r: String)
    requires
        word@.len() > 0,
    ensures
        r@ == replaced(s@, word@, by@, 0),
{
    let chars = chars_of(s);
    let sought = chars_of(word);
    let mut out = String::new();
    let mut i: usize = 0;
    assert(out@ + replaced(s@, word@, by@, 0) =~= replaced(s@, word@, by@, 0));
    while i < chars.len()
        invariant
            i <= chars@.len(),
            chars@ == s@,
            sought@ == word@,
            word@.len() > 0,
            out@ + replaced(s@, word@, by@, i as int) == replaced(s@, word@, by@, 0),
        decreases chars@.len() - i,
    {
        let ghost before = out@;
        let here = sought.len() <= chars.len() - i && matches_at(&chars, i, &sought);
        if here {
            out.append(by);
            assert(before + (by@ + replaced(s@, word@, by@, i + word@.len())) =~= out@ + replaced(
                s@,
                word@,
                by@,
                i + word@.len(),
            ));
            i = i + sought.len();
        } else {
            out.push(chars[i]);
            assert(before + (seq![s@[i as int]] + replaced(s@, word@, by@, i + 1)) =~= out@
                + replaced(s@, word@, by@, i + 1));
            i = i + 1;
        }
    }
    assert(out@ + Seq::<char>::empty() =~= out@);
    out
}

/// A text without the escapes of XML, the ampersand first.
pub open spec fn unescaped(s: Seq<char>) -> Seq<char> {
    let a = replaced(s, "&amp;"@, "&"@, 0);
    let b = replaced(a, "&lt;"@, "<"@, 0);
    let c = replaced(b, "&gt;"@, ">"@, 0);
    let d = replaced(c, "&quot;"@, "\""@, 0);
    replaced(d, "&apos;"@, "'"@, 0)
}

/// Undoes the escapes of XML.
pub fn xml_unescape(s: &str) -> (r: String)
    ensures
        r@ == unescaped(s@),
{
    proof {
        reveal_strlit("&amp;");
        reveal_strlit("&lt;");
        reveal_strlit("&gt;");
        reveal_strlit("&quot;");
        reveal_strlit("&apos;");
    }
    let a = replace(s, "&amp;", "&");
    let b = replace(a.as_str(), "&lt;", "<");
    let c = replace(b.as_str(), "&gt;", ">");
    let d = replace(c.as_str(), "&quot;", "\"");
    replace(d.as_str(), "&apos;", "'")
}

} // verus!
