//! Line-based text files: lines, `key=value` pairs, surrounding white space.

use vstd::prelude::*;

use crate::text::{chars_of, decimal, is_digit, lemma_decimal_reads_back, piece, views};

verus! {

// ---- white space -------------------------------------------------------------------------------

/// Whether a character is white space, as Unicode counts it.
pub open spec fn is_space(c: char) -> bool {
    let n = c as u32;
    (9 <= n <= 13) || n == 32 || n == 0x85 || n == 0xa0 || n == 0x1680 || (0x2000 <= n <= 0x200a)
        || n == 0x2028 || n == 0x2029 || n == 0x202f || n == 0x205f || n == 0x3000
}

/// A text without white space at its start.
pub open spec fn trim_start(s: Seq<char>) -> Seq<char>
    decreases s.len(),
{
    if s.len() > 0 && is_space(s[0]) {
        trim_start(s.subrange(1, s.len() as int))
    } else {
        s
    }
}

/// A text without white space at its end.
pub open spec fn trim_end(s: Seq<char>) -> Seq<char>
    decreases s.len(),
{
    if s.len() > 0 && is_space(s.last()) {
        trim_end(s.drop_last())
    } else {
        s
    }
}

/// A text without white space around it.
pub open spec fn trimmed(s: Seq<char>) -> Seq<char> {
    trim_end(trim_start(s))
}

/// Whether a character is white space.
pub fn space(c: char) -> (r: bool)
    ensures
        r == is_space(c),
{
    let n: u32 = c as u32;
    (9 <= n && n <= 13) || n == 32 || n == 0x85 || n == 0xa0 || n == 0x1680 || (0x2000 <= n && n
        <= 0x200a) || n == 0x2028 || n == 0x2029 || n == 0x202f || n == 0x205f || n == 0x3000
}

/// A text without white space around it.
pub fn trim(s: &str) -> (r: String)
    ensures
        r@ == trimmed(s@),
{
    let chars = chars_of(s);
    let ghost whole = chars@;
    let mut from: usize = 0;
    let mut to: usize = chars.len();
    assert(whole.subrange(0, whole.len() as int) =~= whole);
    while from < to && space(chars[from])
        invariant
            from <= to == chars@.len(),
            whole == chars@,
            trim_start(whole) == trim_start(whole.subrange(from as int, whole.len() as int)),
        decreases to - from,
    {
        proof {
            let here = whole.subrange(from as int, whole.len() as int);
            assert(here.subrange(1, here.len() as int) =~= whole.subrange(
                from as int + 1,
                whole.len() as int,
            ));
        }
        from = from + 1;
    }
    let ghost start = whole.subrange(from as int, whole.len() as int);
    assert(trim_start(whole) == start);
    while from < to && space(chars[to - 1])
        invariant
            from <= to <= chars@.len(),
            whole == chars@,
            trim_end(start) == trim_end(whole.subrange(from as int, to as int)),
        decreases to - from,
    {
        proof {
            let here = whole.subrange(from as int, to as int);
            assert(here.drop_last() =~= whole.subrange(from as int, to as int - 1));
        }
        to = to - 1;
    }
    piece(&chars, from, to)
}

/// Whether a text holds no white space.
pub open spec fn spaceless(s: Seq<char>) -> bool {
    forall|i: int| 0 <= i < s.len() ==> !is_space(#[trigger] s[i])
}

/// A text without white space is its own trim.
pub proof fn lemma_trim_spaceless(s: Seq<char>)
    requires
        spaceless(s),
    ensures
        trimmed(s) == s,
{
    if s.len() > 0 {
        assert(!is_space(s[0]));
        assert(!is_space(s[s.len() - 1]));
    }
}

// ---- lines -------------------------------------------------------------------------------------

/// The place of the first `c` from `i` on, or the end of the text.
pub open spec fn find_from(s: Seq<char>, c: char, i: int) -> int
    decreases s.len() - i,
{
    if i < 0 || i >= s.len() || s[i] == c {
        i
    } else {
        find_from(s, c, i + 1)
    }
}

/// A line without the carriage return before its line feed.
pub open spec fn without_return(s: Seq<char>) -> Seq<char> {
    if s.len() > 0 && s.last() == '\r' {
        s.drop_last()
    } else {
        s
    }
}

/// The lines of a text. A line ends in a line feed, or in a carriage return and a line feed; the
/// last one need not.
pub open spec fn lines(s: Seq<char>) -> Seq<Seq<char>>
    decreases s.len(),
{
    if s.len() == 0 {
        Seq::empty()
    } else {
        let end = find_from(s, '\n', 0);
        if 0 <= end < s.len() {
            seq![without_return(s.subrange(0, end))] + lines(
                s.subrange(end + 1, s.len() as int),
            )
        } else {
            seq![s]
        }
    }
}

proof fn lemma_find_from(s: Seq<char>, c: char, i: int)
    requires
        0 <= i <= s.len(),
    ensures
        i <= find_from(s, c, i) <= s.len(),
        find_from(s, c, i) < s.len() ==> s[find_from(s, c, i)] == c,
        forall|k: int| i <= k < find_from(s, c, i) ==> #[trigger] s[k] != c,
    decreases s.len() - i,
{
    if i < s.len() && s[i] != c {
        lemma_find_from(s, c, i + 1);
    }
}

proof fn lemma_find_is(s: Seq<char>, c: char, i: int, end: int)
    requires
        0 <= i <= end <= s.len(),
        forall|k: int| i <= k < end ==> #[trigger] s[k] != c,
        end < s.len() ==> s[end] == c,
    ensures
        find_from(s, c, i) == end,
    decreases end - i,
{
    if i < end {
        assert(s[i] != c);
        lemma_find_is(s, c, i + 1, end);
    }
}

/// A line written in front of a text is its first line.
pub proof fn lemma_first_line(line: Seq<char>, rest: Seq<char>)
    requires
        spaceless(line),
    ensures
        lines(line + seq!['\n'] + rest) == seq![line] + lines(rest),
{
    let s = line + seq!['\n'] + rest;
    assert forall|k: int| 0 <= k < line.len() implies #[trigger] s[k] != '\n' by {
        assert(s[k] == line[k]);
        assert(is_space('\n'));
    }
    assert(s[line.len() as int] == '\n');
    lemma_find_is(s, '\n', 0, line.len() as int);
    assert(s.subrange(0, line.len() as int) =~= line);
    assert(s.subrange(line.len() as int + 1, s.len() as int) =~= rest);
    if line.len() > 0 {
        assert(!is_space(line[line.len() - 1]));
        assert(is_space('\r'));
    }
}

/// As [`lemma_first_line`], for a line whose only spaces are blanks inside it.
pub proof fn lemma_first_line_of(line: Seq<char>, rest: Seq<char>)
    requires
        forall|k: int| 0 <= k < line.len() ==> #[trigger] line[k] != '\n' && line[k] != '\r',
    ensures
        lines(line + seq!['\n'] + rest) == seq![line] + lines(rest),
{
    let s = line + seq!['\n'] + rest;
    assert forall|k: int| 0 <= k < line.len() implies #[trigger] s[k] != '\n' by {
        assert(s[k] == line[k]);
    }
    assert(s[line.len() as int] == '\n');
    lemma_find_is(s, '\n', 0, line.len() as int);
    assert(s.subrange(0, line.len() as int) =~= line);
    assert(s.subrange(line.len() as int + 1, s.len() as int) =~= rest);
}

fn find_char(chars: &Vec<char>, c: char, from: usize) -> (r: usize)
    requires
        from <= chars@.len(),
    ensures
        r == find_from(chars@, c, from as int),
        from <= r <= chars@.len(),
{
    let mut i: usize = from;
    while i < chars.len() && chars[i] != c
        invariant
            from <= i <= chars@.len(),
            find_from(chars@, c, i as int) == find_from(chars@, c, from as int),
        decreases chars@.len() - i,
    {
        i = i + 1;
    }
    i
}

proof fn lemma_find_shifts(s: Seq<char>, c: char, from: int, i: int)
    requires
        0 <= from <= s.len(),
        0 <= i <= s.len() - from,
    ensures
        find_from(s.subrange(from, s.len() as int), c, i) == find_from(s, c, from + i) - from,
    decreases s.len() - from - i,
{
    let t = s.subrange(from, s.len() as int);
    if i < t.len() {
        assert(t[i] == s[from + i]);
        if t[i] != c {
            lemma_find_shifts(s, c, from, i + 1);
        }
    }
}

/// The lines of a text.
pub fn lines_of(s: &str) -> (r: Vec<String>)
    ensures
        views(r@) == lines(s@),
{
    let chars = chars_of(s);
    let ghost whole = chars@;
    let mut out: Vec<String> = Vec::new();
    let mut at: usize = 0;
    assert(whole.subrange(0, whole.len() as int) =~= whole);
    assert(views(out@) =~= Seq::empty());
    assert(Seq::<Seq<char>>::empty() + lines(whole) =~= lines(whole));
    while at < chars.len()
        invariant
            at <= chars@.len(),
            whole == chars@,
            lines(whole) == views(out@) + lines(whole.subrange(at as int, whole.len() as int)),
        decreases chars@.len() - at,
    {
        let end: usize = find_char(&chars, '\n', at);
        let ghost rest = whole.subrange(at as int, whole.len() as int);
        let ghost before = out@;
        proof {
            lemma_find_shifts(whole, '\n', at as int, 0);
        }
        if end < chars.len() {
            let stop: usize = if end > at && chars[end - 1] == '\r' {
                end - 1
            } else {
                end
            };
            let line = piece(&chars, at, stop);
            let ghost shown = line@;
            out.push(line);
            proof {
                let cut = rest.subrange(0, end - at);
                assert(cut =~= whole.subrange(at as int, end as int));
                if end > at {
                    assert(cut.last() == whole[end as int - 1]);
                }
                assert(shown =~= without_return(cut));
                assert(rest.subrange(end - at + 1, rest.len() as int) =~= whole.subrange(
                    end as int + 1,
                    whole.len() as int,
                ));
                assert(views(out@) =~= views(before).push(shown));
                assert(views(before) + (seq![shown] + lines(
                    whole.subrange(end as int + 1, whole.len() as int),
                )) =~= views(out@) + lines(whole.subrange(end as int + 1, whole.len() as int)));
            }
            at = end + 1;
        } else {
            let line = piece(&chars, at, end);
            let ghost shown = line@;
            out.push(line);
            proof {
                assert(views(out@) =~= views(before).push(shown));
                assert(shown =~= rest);
                assert(whole.subrange(end as int, whole.len() as int) =~= Seq::empty());
                assert(views(before) + seq![rest] =~= views(out@) + lines(
                    whole.subrange(end as int, whole.len() as int),
                ));
            }
            at = end;
        }
    }
    assert(whole.subrange(at as int, whole.len() as int) =~= Seq::empty());
    assert(views(out@) + Seq::<Seq<char>>::empty() =~= views(out@));
    out
}

// ---- pairs -------------------------------------------------------------------------------------

/// What stands before and after the first `c`.
pub open spec fn split_at_first(s: Seq<char>, c: char) -> Option<(Seq<char>, Seq<char>)> {
    let i = find_from(s, c, 0);
    if 0 <= i < s.len() {
        Some((s.subrange(0, i), s.subrange(i + 1, s.len() as int)))
    } else {
        None
    }
}

/// What stands before and after the first `c`.
pub fn split_once(s: &str, c: char) -> (r: Option<(String, String)>)
    ensures
        split_at_first(s@, c) == (match r {
            Some(p) => Some((p.0@, p.1@)),
            None => None,
        }),
{
    let chars = chars_of(s);
    let i: usize = find_char(&chars, c, 0);
    if i < chars.len() {
        Some((piece(&chars, 0, i), piece(&chars, i + 1, chars.len())))
    } else {
        None
    }
}

/// A pair splits where it was joined.
pub proof fn lemma_split_pair(key: Seq<char>, value: Seq<char>, c: char)
    requires
        forall|i: int| 0 <= i < key.len() ==> #[trigger] key[i] != c,
    ensures
        split_at_first(key + seq![c] + value, c) == Some((key, value)),
{
    let s = key + seq![c] + value;
    assert forall|k: int| 0 <= k < key.len() implies #[trigger] s[k] != c by {
        assert(s[k] == key[k]);
    }
    assert(s[key.len() as int] == c);
    lemma_find_is(s, c, 0, key.len() as int);
    assert(s.subrange(0, key.len() as int) =~= key);
    assert(s.subrange(key.len() as int + 1, s.len() as int) =~= value);
}

/// What follows `prefix`, where a text starts with it.
pub open spec fn after_prefix(s: Seq<char>, prefix: Seq<char>) -> Option<Seq<char>> {
    if prefix.len() <= s.len() && s.subrange(0, prefix.len() as int) == prefix {
        Some(s.subrange(prefix.len() as int, s.len() as int))
    } else {
        None
    }
}

/// What follows `prefix`, where a text starts with it.
pub fn strip_prefix(s: &str, prefix: &str) -> (r: Option<String>)
    ensures
        after_prefix(s@, prefix@) == (match r {
            Some(t) => Some(t@),
            None => None,
        }),
{
    let chars = chars_of(s);
    let head = chars_of(prefix);
    if head.len() > chars.len() {
        return None;
    }
    let mut i: usize = 0;
    while i < head.len()
        invariant
            i <= head@.len() <= chars@.len(),
            chars@ == s@,
            head@ == prefix@,
            forall|k: int| 0 <= k < i ==> chars@[k] == head@[k],
        decreases head@.len() - i,
    {
        if chars[i] != head[i] {
            assert(s@.subrange(0, prefix@.len() as int)[i as int] != prefix@[i as int]);
            return None;
        }
        i = i + 1;
    }
    assert(s@.subrange(0, prefix@.len() as int) =~= prefix@);
    Some(piece(&chars, head.len(), chars.len()))
}

/// What precedes `suffix`, where a text ends with it.
pub open spec fn before_suffix(s: Seq<char>, suffix: Seq<char>) -> Option<Seq<char>> {
    if suffix.len() <= s.len() && s.subrange(s.len() - suffix.len(), s.len() as int) == suffix {
        Some(s.subrange(0, s.len() - suffix.len()))
    } else {
        None
    }
}

/// What precedes `suffix`, where a text ends with it.
pub fn strip_suffix(s: &str, suffix: &str) -> (r: Option<String>)
    ensures
        before_suffix(s@, suffix@) == (match r {
            Some(t) => Some(t@),
            None => None,
        }),
{
    let chars = chars_of(s);
    let tail = chars_of(suffix);
    if tail.len() > chars.len() {
        return None;
    }
    let start: usize = chars.len() - tail.len();
    let mut i: usize = 0;
    while i < tail.len()
        invariant
            i <= tail@.len(),
            start + tail.len() == chars.len(),
            tail.len() == tail@.len(),
            chars@ == s@,
            tail@ == suffix@,
            forall|k: int| 0 <= k < i ==> chars@[start + k] == tail@[k],
        decreases tail@.len() - i,
    {
        if chars[start + i] != tail[i] {
            assert(s@.subrange(start as int, s@.len() as int)[i as int] != suffix@[i as int]);
            return None;
        }
        i = i + 1;
    }
    assert(s@.subrange(start as int, s@.len() as int) =~= suffix@);
    Some(piece(&chars, 0, start))
}

/// Decimal digits hold neither white space nor `=`.
pub proof fn lemma_decimal_plain(n: nat)
    ensures
        spaceless(decimal(n)),
        forall|k: int| 0 <= k < decimal(n).len() ==> #[trigger] decimal(n)[k] != '=',
        decimal(n).len() > 0,
{
    lemma_decimal_reads_back(n);
    assert forall|k: int| 0 <= k < decimal(n).len() implies !is_space(
        #[trigger] decimal(n)[k],
    ) by {
        assert(is_digit(decimal(n)[k]));
    }
    assert forall|k: int| 0 <= k < decimal(n).len() implies #[trigger] decimal(n)[k] != '=' by {
        assert(is_digit(decimal(n)[k]));
    }
}

/// Texts without white space make a text without white space, with `=` between them or not.
pub proof fn lemma_spaceless_join(a: Seq<char>, b: Seq<char>)
    requires
        spaceless(a),
        spaceless(b),
    ensures
        spaceless(a + b),
        spaceless(a + seq!['='] + b),
{
    let s = a + b;
    assert forall|k: int| 0 <= k < s.len() implies !is_space(#[trigger] s[k]) by {
        if k < a.len() {
            assert(s[k] == a[k]);
        } else {
            assert(s[k] == b[k - a.len()]);
        }
    }
    let t = a + seq!['='] + b;
    assert forall|k: int| 0 <= k < t.len() implies !is_space(#[trigger] t[k]) by {
        if k < a.len() {
            assert(t[k] == a[k]);
        } else if k > a.len() {
            assert(t[k] == b[k - a.len() - 1]);
        }
    }
}

/// Whether a text can be the key of a pair: no white space and no `=` in it.
pub open spec fn plain(s: Seq<char>) -> bool {
    spaceless(s) && forall|i: int| 0 <= i < s.len() ==> #[trigger] s[i] != '='
}

/// A `key=value` line in front of a text is its first line, and splits where it was joined.
pub proof fn lemma_pair_line(key: Seq<char>, value: Seq<char>, rest: Seq<char>)
    requires
        plain(key),
        spaceless(value),
    ensures
        lines((key + seq!['='] + value) + seq!['\n'] + rest) == seq![key + seq!['='] + value] + lines(
            rest,
        ),
        split_at_first(key + seq!['='] + value, '=') == Some((key, value)),
        trimmed(key) == key,
        trimmed(value) == value,
{
    lemma_spaceless_join(key, value);
    lemma_first_line(key + seq!['='] + value, rest);
    lemma_split_pair(key, value, '=');
    lemma_trim_spaceless(key);
    lemma_trim_spaceless(value);
}

// ---- words -------------------------------------------------------------------------------------

/// The end of the run of characters from `i` on that are no white space.
pub open spec fn word_end(s: Seq<char>, i: int) -> int
    decreases s.len() - i,
{
    if 0 <= i < s.len() && !is_space(s[i]) {
        word_end(s, i + 1)
    } else {
        i
    }
}

/// The words of a text from `i` on, which white space separates.
pub open spec fn words_from(s: Seq<char>, i: int) -> Seq<Seq<char>>
    decreases s.len() - i,
    via words_from_decreases
{
    if i < 0 || i >= s.len() {
        Seq::empty()
    } else if is_space(s[i]) {
        words_from(s, i + 1)
    } else {
        seq![s.subrange(i, word_end(s, i))] + words_from(s, word_end(s, i))
    }
}

#[via_fn]
proof fn words_from_decreases(s: Seq<char>, i: int) {
    if 0 <= i < s.len() && !is_space(s[i]) {
        lemma_word_end(s, i + 1);
    }
}

/// The words of a text.
pub open spec fn words(s: Seq<char>) -> Seq<Seq<char>> {
    words_from(s, 0)
}

proof fn lemma_word_end(s: Seq<char>, i: int)
    requires
        0 <= i <= s.len(),
    ensures
        i <= word_end(s, i) <= s.len(),
        forall|k: int| i <= k < word_end(s, i) ==> !is_space(#[trigger] s[k]),
        word_end(s, i) < s.len() ==> is_space(s[word_end(s, i)]),
    decreases s.len() - i,
{
    if i < s.len() && !is_space(s[i]) {
        lemma_word_end(s, i + 1);
    }
}

/// The words of a text.
pub fn words_of(s: &str) -> (r: Vec<String>)
    ensures
        views(r@) == words(s@),
{
    let chars = chars_of(s);
    let ghost whole = chars@;
    let mut out: Vec<String> = Vec::new();
    let mut at: usize = 0;
    assert(views(out@) =~= Seq::empty());
    assert(Seq::<Seq<char>>::empty() + words(whole) =~= words(whole));
    while at < chars.len()
        invariant
            at <= chars@.len(),
            whole == chars@,
            words(whole) == views(out@) + words_from(whole, at as int),
        decreases chars@.len() - at,
    {
        if space(chars[at]) {
            at = at + 1;
        } else {
            let ghost start = at;
            let ghost before = out@;
            let mut end: usize = at;
            while end < chars.len() && !space(chars[end])
                invariant
                    start <= end <= chars@.len(),
                    whole == chars@,
                    word_end(whole, start as int) == word_end(whole, end as int),
                    end == start ==> !is_space(whole[start as int]) && start < whole.len(),
                decreases chars@.len() - end,
            {
                end = end + 1;
            }
            let word = piece(&chars, at, end);
            let ghost shown = word@;
            out.push(word);
            proof {
                assert(views(out@) =~= views(before).push(shown));
                assert(views(before) + (seq![shown] + words_from(whole, end as int)) =~= views(out@)
                    + words_from(whole, end as int));
            }
            at = end;
        }
    }
    assert(views(out@) + Seq::<Seq<char>>::empty() =~= views(out@));
    out
}

proof fn lemma_word_end_is(s: Seq<char>, i: int, end: int)
    requires
        0 <= i <= end <= s.len(),
        forall|k: int| i <= k < end ==> !is_space(#[trigger] s[k]),
        end < s.len() ==> is_space(s[end]),
    ensures
        word_end(s, i) == end,
    decreases end - i,
{
    if i < end {
        assert(!is_space(s[i]));
        lemma_word_end_is(s, i + 1, end);
    }
}

proof fn lemma_words_shift(s: Seq<char>, from: int, i: int)
    requires
        0 <= from <= s.len(),
        0 <= i <= s.len() - from,
    ensures
        words_from(s, from + i) == words_from(s.subrange(from, s.len() as int), i),
    decreases s.len() - from - i,
{
    let t = s.subrange(from, s.len() as int);
    if i < t.len() {
        assert(t[i] == s[from + i]);
        if is_space(t[i]) {
            lemma_words_shift(s, from, i + 1);
        } else {
            lemma_word_end(s, from + i);
            let end = word_end(s, from + i);
            assert(end > from + i) by {
                lemma_word_end(s, from + i + 1);
            }
            assert forall|k: int| i <= k < end - from implies !is_space(#[trigger] t[k]) by {
                assert(t[k] == s[from + k]);
            }
            if end < s.len() {
                assert(t[end - from] == s[end]);
            }
            lemma_word_end_is(t, i, end - from);
            lemma_words_shift(s, from, end - from);
            assert(t.subrange(i, end - from) =~= s.subrange(from + i, end));
        }
    }
}

/// A word and a blank in front of a text add that word to its words.
pub proof fn lemma_first_word(word: Seq<char>, rest: Seq<char>)
    requires
        spaceless(word),
        word.len() > 0,
    ensures
        words(word + seq![' '] + rest) == seq![word] + words(rest),
        words(word) == seq![word],
{
    let s = word + seq![' '] + rest;
    let n = word.len() as int;
    assert forall|k: int| 0 <= k < n implies !is_space(#[trigger] s[k]) by {
        assert(s[k] == word[k]);
    }
    assert(s[n] == ' ');
    lemma_word_end_is(s, 0, n);
    assert(s.subrange(0, n) =~= word);
    assert(!is_space(s[0]));
    assert(words_from(s, n) == words_from(s, n + 1));
    lemma_words_shift(s, n + 1, 0);
    assert(s.subrange(n + 1, s.len() as int) =~= rest);
    lemma_word_end_is(word, 0, n);
    assert(!is_space(word[0]));
    assert(word.subrange(0, n) =~= word);
    assert(words_from(word, n) =~= Seq::empty());
    assert(words(word) =~= seq![word]);
}

} // verus!
