//! What the functions on texts do, in plain terms.

use vstd::prelude::*;

use crate::lines::{
    after_prefix, before_suffix, find_from, is_space, lines, split_at_first, trim_end, trim_start,
    trimmed, without_return,
};
use crate::net::auth::valid_name;
use crate::text::{
    all_digits, decimal, decimal_int, digit_run, digits_value, doubled_quotes, float_text,
    join_with, lemma_decimal_reads_back, lower, quoted, signed_text, unsigned_text, upper,
};

verus! {

/// Changing the case changes the letters of the alphabet, one for one, and nothing else.
pub proof fn law_cases(s: Seq<char>, i: int)
    requires
        0 <= i < s.len(),
    ensures
        lower(s).len() == s.len(),
        upper(s).len() == s.len(),
        'A' <= s[i] <= 'Z' ==> lower(s)[i] as int == s[i] as int + 32,
        !('A' <= s[i] <= 'Z') ==> lower(s)[i] == s[i],
        'a' <= s[i] <= 'z' ==> upper(s)[i] as int == s[i] as int - 32,
        !('a' <= s[i] <= 'z') ==> upper(s)[i] == s[i],
{
}

/// A number is written with its digits, the last of them its remainder by ten, and is read back; a
/// negative one has a minus sign in front.
pub proof fn law_numbers_are_written(n: nat, m: int)
    ensures
        n < 10 ==> decimal(n).len() == 1 && decimal(n)[0] as int == 48 + n,
        n >= 10 ==> decimal(n).drop_last() == decimal(n / 10) && decimal(n).last() as int == 48 + n
            % 10,
        unsigned_text(decimal(n)) == Some(n),
        signed_text(decimal_int(m)) == Some(m),
{
    lemma_decimal_reads_back(n);
    if n >= 10 {
        assert(decimal(n).drop_last() =~= decimal(n / 10));
    }
    if m < 0 {
        let k = (-m) as nat;
        lemma_decimal_reads_back(k);
        let s = decimal_int(m);
        assert(s[0] == '-');
        assert(s.subrange(1, s.len() as int) =~= decimal(k));
    } else {
        lemma_decimal_reads_back(m as nat);
        assert(crate::text::is_digit(decimal(m as nat)[0]));
    }
}

/// What is no row of digits, with a plus sign at most, is no number without a sign.
pub proof fn law_what_is_no_number(s: Seq<char>, i: int)
    requires
        0 < i < s.len(),
        !('0' <= s[i] <= '9'),
    ensures
        unsigned_text(s) is None,
        signed_text(s) is None,
        unsigned_text(Seq::<char>::empty()) is None,
{
    let body = s.subrange(1, s.len() as int);
    assert(body[i - 1] == s[i]);
    assert(!all_digits(body));
    assert(!all_digits(s));
}

/// Digits are read from the left, each as ten times what came before and itself.
pub proof fn law_digits_are_read(s: Seq<char>, c: char)
    requires
        '0' <= c <= '9',
    ensures
        digits_value(s.push(c)) == digits_value(s) * 10 + (c as int - 48),
        digits_value(Seq::<char>::empty()) == 0,
{
    assert(s.push(c).drop_last() =~= s);
}

/// Texts are joined with the separator between every two of them.
pub proof fn law_joining(parts: Seq<Seq<char>>, more: Seq<char>, sep: Seq<char>)
    ensures
        join_with(Seq::<Seq<char>>::empty(), sep).len() == 0,
        join_with(seq![more], sep) == more,
        parts.len() > 0 ==> join_with(parts.push(more), sep) == join_with(parts, sep) + sep + more,
{
    assert(parts.push(more).drop_last() =~= parts);
}

/// A quoted name stands between quotes, and every quote in it is written twice.
pub proof fn law_quoting(s: Seq<char>, c: char)
    ensures
        quoted(s) == seq!['"'] + doubled_quotes(s) + seq!['"'],
        c != '"' ==> doubled_quotes(s.push(c)) == doubled_quotes(s).push(c),
        c == '"' ==> doubled_quotes(s.push(c)) == doubled_quotes(s).push('"').push('"'),
        doubled_quotes(Seq::<char>::empty()).len() == 0,
{
    assert(s.push(c).drop_last() =~= s);
}

proof fn lemma_trim_start(s: Seq<char>)
    ensures
        trim_start(s).len() > 0 ==> !is_space(trim_start(s)[0]),
        exists|k: int|
            0 <= k <= s.len() && trim_start(s) == #[trigger] s.subrange(k, s.len() as int) && forall|
                i: int,
            | 0 <= i < k ==> is_space(#[trigger] s[i]),
    decreases s.len(),
{
    if s.len() > 0 && is_space(s[0]) {
        let rest = s.subrange(1, s.len() as int);
        lemma_trim_start(rest);
        let k = choose|k: int|
            0 <= k <= rest.len() && trim_start(rest) == #[trigger] rest.subrange(
                k,
                rest.len() as int,
            ) && forall|i: int| 0 <= i < k ==> is_space(#[trigger] rest[i]);
        assert(rest.subrange(k, rest.len() as int) =~= s.subrange(k + 1, s.len() as int));
        assert forall|i: int| 0 <= i < k + 1 implies is_space(#[trigger] s[i]) by {
            if i > 0 {
                assert(rest[i - 1] == s[i]);
            }
        }
    } else {
        assert(s.subrange(0, s.len() as int) =~= s);
    }
}

proof fn lemma_trim_end(s: Seq<char>)
    ensures
        trim_end(s).len() > 0 ==> !is_space(trim_end(s).last()),
        exists|k: int|
            0 <= k <= s.len() && trim_end(s) == #[trigger] s.subrange(0, k) && forall|i: int|
                k <= i < s.len() ==> is_space(#[trigger] s[i]),
    decreases s.len(),
{
    if s.len() > 0 && is_space(s.last()) {
        let rest = s.drop_last();
        lemma_trim_end(rest);
        let k = choose|k: int|
            0 <= k <= rest.len() && trim_end(rest) == #[trigger] rest.subrange(0, k) && forall|
                i: int,
            | k <= i < rest.len() ==> is_space(#[trigger] rest[i]);
        assert(rest.subrange(0, k) =~= s.subrange(0, k));
        assert forall|i: int| k <= i < s.len() implies is_space(#[trigger] s[i]) by {
            if i < rest.len() {
                assert(rest[i] == s[i]);
            }
        }
    } else {
        assert(s.subrange(0, s.len() as int) =~= s);
    }
}

/// Trimming takes the white space at both ends of a text away, and nothing else.
pub proof fn law_trimming(s: Seq<char>)
    ensures
        exists|a: int, b: int|
            0 <= a <= b <= s.len() && trimmed(s) == #[trigger] s.subrange(a, b) && (forall|i: int|
                0 <= i < a ==> is_space(#[trigger] s[i])) && (forall|i: int|
                b <= i < s.len() ==> is_space(#[trigger] s[i])),
        trimmed(s).len() > 0 ==> !is_space(trimmed(s)[0]) && !is_space(trimmed(s).last()),
        is_space(' ') && is_space('\t') && is_space('\n') && is_space('\r'),
{
    lemma_trim_start(s);
    let t = trim_start(s);
    lemma_trim_end(t);
    let a = choose|k: int|
        0 <= k <= s.len() && t == #[trigger] s.subrange(k, s.len() as int) && forall|i: int|
            0 <= i < k ==> is_space(#[trigger] s[i]);
    let k = choose|k: int|
        0 <= k <= t.len() && trim_end(t) == #[trigger] t.subrange(0, k) && forall|i: int|
            k <= i < t.len() ==> is_space(#[trigger] t[i]);
    assert(t.subrange(0, k) =~= s.subrange(a, a + k));
    assert forall|i: int| a + k <= i < s.len() implies is_space(#[trigger] s[i]) by {
        assert(t[i - a] == s[i]);
    }
    if trimmed(s).len() > 0 {
        assert(trimmed(s)[0] == t[0]);
    }
}

proof fn lemma_find(s: Seq<char>, c: char, i: int)
    requires
        0 <= i <= s.len(),
    ensures
        ({
            let at = find_from(s, c, i);
            if 0 <= at < s.len() {
                i <= at && s[at] == c && forall|k: int| i <= k < at ==> (#[trigger] s[k]) != c
            } else {
                forall|k: int| i <= k < s.len() ==> (#[trigger] s[k]) != c
            }
        }),
    decreases s.len() - i,
{
    if i < s.len() && s[i] != c {
        lemma_find(s, c, i + 1);
    }
}

/// A text is split at the first place of a character: what is before it does not hold it, and the
/// two parts with it between them are the text.
pub proof fn law_splitting(s: Seq<char>, c: char)
    ensures
        split_at_first(s, c) matches Some((a, b)) ==> s == a + seq![c] + b && forall|i: int|
            0 <= i < a.len() ==> (#[trigger] a[i]) != c,
        split_at_first(s, c) is None ==> forall|i: int| 0 <= i < s.len() ==> (#[trigger] s[i]) != c,
{
    lemma_find(s, c, 0);
    if let Some((a, b)) = split_at_first(s, c) {
        let at = find_from(s, c, 0);
        assert(s =~= a + seq![c] + b);
        assert forall|i: int| 0 <= i < a.len() implies (#[trigger] a[i]) != c by {
            assert(a[i] == s[i]);
        }
    }
}

/// What follows a prefix, and what comes before a suffix.
pub proof fn law_prefixes_and_suffixes(s: Seq<char>, t: Seq<char>)
    ensures
        after_prefix(s + t, s) == Some(t),
        before_suffix(s + t, t) == Some(s),
        after_prefix(s, t) matches Some(rest) ==> s == t + rest,
        before_suffix(s, t) matches Some(rest) ==> s == rest + t,
{
    assert((s + t).subrange(0, s.len() as int) =~= s);
    assert((s + t).subrange(s.len() as int, (s + t).len() as int) =~= t);
    if let Some(rest) = after_prefix(s, t) {
        assert(s =~= t + rest);
    }
    if let Some(rest) = before_suffix(s, t) {
        assert(s =~= rest + t);
    }
}

/// A text is read line by line; a return at the end of a line that is ended does not belong to it.
pub proof fn law_lines(line: Seq<char>, rest: Seq<char>)
    requires
        forall|k: int| 0 <= k < line.len() ==> (#[trigger] line[k]) != '\n',
    ensures
        line.len() > 0 ==> lines(line) == seq![line],
        lines(line + seq!['\n'] + rest) == seq![without_return(line)] + lines(rest),
        line.len() > 0 && line.last() == '\r' ==> without_return(line) == line.drop_last(),
        line.len() == 0 || line.last() != '\r' ==> without_return(line) == line,
        lines(Seq::<char>::empty()).len() == 0,
{
    let s = line + seq!['\n'] + rest;
    let at = line.len() as int;
    assert forall|k: int| 0 <= k < at implies (#[trigger] s[k]) != '\n' by {
        assert(s[k] == line[k]);
    }
    assert(s[at] == '\n');
    lemma_found_at(s, '\n', 0, at);
    assert(s.subrange(0, at) =~= line);
    assert(s.subrange(at + 1, s.len() as int) =~= rest);
    lemma_find(line, '\n', 0);
}

proof fn lemma_found_at(s: Seq<char>, c: char, i: int, at: int)
    requires
        0 <= i <= at < s.len(),
        s[at] == c,
        forall|k: int| 0 <= k < at ==> (#[trigger] s[k]) != c,
    ensures
        find_from(s, c, i) == at,
    decreases at - i,
{
    if i < at {
        assert(s[i] != c);
        lemma_found_at(s, c, i + 1, at);
    }
}

proof fn lemma_digit_run(s: Seq<char>, i: int, n: int)
    requires
        0 <= i <= n <= s.len(),
        forall|k: int| i <= k < n ==> '0' <= (#[trigger] s[k]) <= '9',
        n == s.len() || !('0' <= s[n] <= '9'),
    ensures
        digit_run(s, i) == n,
    decreases n - i,
{
    if i < n {
        assert('0' <= s[i] <= '9');
        lemma_digit_run(s, i + 1, n);
    }
}

/// Digits are a number, with a sign, a point and more digits too; an empty text is none, nor is one
/// that begins with a letter other than those of `inf` and `nan`.
pub proof fn law_what_is_a_number(a: Seq<char>, b: Seq<char>, s: Seq<char>)
    requires
        a.len() > 0,
        forall|k: int| 0 <= k < a.len() ==> '0' <= (#[trigger] a[k]) <= '9',
        forall|k: int| 0 <= k < b.len() ==> '0' <= (#[trigger] b[k]) <= '9',
    ensures
        float_text(a),
        float_text(a + seq!['.'] + b),
        float_text(seq!['-'] + a + seq!['.'] + b),
        s.len() > 0 && 'a' <= s[0] <= 'z' && s[0] != 'i' && s[0] != 'n' ==> !float_text(s),
        !float_text(Seq::<char>::empty()),
{
    lemma_digit_run(a, 0, a.len() as int);
    assert('0' <= a[0] <= '9');
    let p = a + seq!['.'] + b;
    let n = a.len() as int;
    assert forall|k: int| 0 <= k < n implies '0' <= (#[trigger] p[k]) <= '9' by {
        assert(p[k] == a[k]);
    }
    assert(p[n] == '.');
    lemma_digit_run(p, 0, n);
    assert forall|k: int| n + 1 <= k < p.len() implies '0' <= (#[trigger] p[k]) <= '9' by {
        assert(p[k] == b[k - n - 1]);
    }
    lemma_digit_run(p, n + 1, p.len() as int);
    assert(p[0] == a[0]);
    let q = seq!['-'] + a + seq!['.'] + b;
    assert forall|k: int| 1 <= k < n + 1 implies '0' <= (#[trigger] q[k]) <= '9' by {
        assert(q[k] == a[k - 1]);
    }
    assert(q[0] == '-' && q[n + 1] == '.');
    lemma_digit_run(q, 1, n + 1);
    assert forall|k: int| n + 2 <= k < q.len() implies '0' <= (#[trigger] q[k]) <= '9' by {
        assert(q[k] == b[k - n - 2]);
    }
    lemma_digit_run(q, n + 2, q.len() as int);
    reveal_strlit("inf");
    reveal_strlit("infinity");
    reveal_strlit("nan");
    assert("inf"@[0] == 'i' && "infinity"@[0] == 'i' && "nan"@[0] == 'n');
    if s.len() > 0 && 'a' <= s[0] <= 'z' {
        assert(s.subrange(0, s.len() as int) =~= s);
        assert(lower(s)[0] == s[0]);
    }
    let none = Seq::<char>::empty();
    assert(none.subrange(0, 0) =~= none);
    assert(lower(none).len() == 0);
    assert("inf"@.len() == 3 && "infinity"@.len() == 8 && "nan"@.len() == 3);
}

/// A name that users may have is not empty and holds no space.
pub proof fn law_names_of_users(name: Seq<char>, i: int)
    ensures
        valid_name(name) ==> name.len() > 0,
        valid_name(name) && 0 <= i < name.len() ==> !is_space(name[i]),
        name.len() > 0 && (forall|k: int| 0 <= k < name.len() ==> !is_space(#[trigger] name[k]))
            ==> valid_name(name),
{
}

} // verus!
