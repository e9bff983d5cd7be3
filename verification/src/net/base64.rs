//! Base64 in the standard alphabet, as HTTP credentials carry it.

use vstd::prelude::*;
use vstd::utf8::encode_utf8;

use crate::lines::{trim, trimmed};
use crate::text::{chars_of, piece};

verus! {

/// The six bits that a character stands for.
pub open spec fn sextet(c: u8) -> Option<u8> {
    if 65 <= c <= 90 {
        Some((c - 65) as u8)
    } else if 97 <= c <= 122 {
        Some((c - 97 + 26) as u8)
    } else if 48 <= c <= 57 {
        Some((c - 48 + 52) as u8)
    } else if c == 43 {
        Some(62)
    } else if c == 47 {
        Some(63)
    } else {
        None
    }
}

fn six_bits(c: u8) -> (r: Option<u8>)
    ensures
        r == sextet(c),
{
    if c >= 65 && c <= 90 {
        Some(c - 65)
    } else if c >= 97 && c <= 122 {
        Some(c - 97 + 26)
    } else if c >= 48 && c <= 57 {
        Some(c - 48 + 52)
    } else if c == 43 {
        Some(62)
    } else if c == 47 {
        Some(63)
    } else {
        None
    }
}

/// Whether every byte is a character of the alphabet.
pub open spec fn in_alphabet(s: Seq<u8>) -> bool {
    forall|i: int| 0 <= i < s.len() ==> sextet(#[trigger] s[i]) is Some
}

/// The number that the first `n` characters write, six bits each.
pub open spec fn sextets_value(s: Seq<u8>, n: nat) -> nat
    decreases n,
{
    if n == 0 || n > s.len() {
        0
    } else {
        sextets_value(s, (n - 1) as nat) * 64 + (match sextet(s[n - 1]) {
            Some(v) => v as nat,
            None => 0,
        })
    }
}

/// The bits that are left over beyond the whole bytes of `n` characters.
pub open spec fn bits_left(n: nat) -> nat {
    (n * 6 % 8) as nat
}

pub open spec fn two_to(k: nat) -> nat
    decreases k,
{
    if k == 0 {
        1
    } else {
        2 * two_to((k - 1) as nat)
    }
}

/// The byte that is complete once `n` characters are read, where `n` completes one: the eight bits
/// of the number above those that are left over.
pub open spec fn byte_at(s: Seq<u8>, n: nat) -> u8 {
    ((sextets_value(s, n) / two_to(bits_left(n))) % 256) as u8
}

/// The bytes that the first `n` characters hold. Bits that fill no byte are dropped.
pub open spec fn decoded(s: Seq<u8>, n: nat) -> Seq<u8>
    decreases n,
{
    if n == 0 || n > s.len() {
        Seq::empty()
    } else {
        let before = decoded(s, (n - 1) as nat);
        if bits_left((n - 1) as nat) + 6 >= 8 {
            before.push(byte_at(s, n))
        } else {
            before
        }
    }
}

/// A text without the padding at its end.
pub open spec fn unpadded(s: Seq<char>) -> Seq<char>
    decreases s.len(),
{
    if s.len() > 0 && s.last() == '=' {
        unpadded(s.drop_last())
    } else {
        s
    }
}

/// What a text says in base64: nothing where it holds a character outside the alphabet.
pub open spec fn base64_of(s: Seq<char>) -> Option<Seq<u8>> {
    let body = encode_utf8(unpadded(trimmed(s)));
    if in_alphabet(body) {
        Some(decoded(body, body.len()))
    } else {
        None
    }
}

fn strip_padding(s: &str) -> (r: String)
    ensures
        r@ == unpadded(s@),
{
    let chars = chars_of(s);
    let mut n: usize = chars.len();
    assert(chars@.subrange(0, n as int) =~= chars@);
    while n > 0 && chars[n - 1] == '='
        invariant
            n <= chars@.len(),
            chars@ == s@,
            unpadded(s@) == unpadded(chars@.subrange(0, n as int)),
        decreases n,
    {
        let ghost here = chars@.subrange(0, n as int);
        assert(here.drop_last() =~= chars@.subrange(0, n - 1));
        n = n - 1;
    }
    piece(&chars, 0, n)
}

proof fn lemma_left(n: nat)
    ensures
        bits_left(n) == 0 || bits_left(n) == 2 || bits_left(n) == 4 || bits_left(n) == 6,
        bits_left(n + 1) == (if bits_left(n) + 6 >= 8 {
            (bits_left(n) + 6 - 8) as nat
        } else {
            bits_left(n) + 6
        }),
{
    let k = n / 4;
    let m = n % 4;
    assert(n * 6 == 24 * k + 6 * m);
    assert((24 * k + 6 * m) % 8 == (6 * m) % 8) by (nonlinear_arith);
    assert((n + 1) * 6 == 24 * k + 6 * m + 6);
    assert((24 * k + 6 * m + 6) % 8 == (6 * m + 6) % 8) by (nonlinear_arith);
}

/// Decodes base64 in the standard alphabet.
pub fn base64_decode(s: &str) -> (r: Option<Vec<u8>>)
    ensures
        match base64_of(s@) {
            Some(bytes) => r matches Some(v) && v@ == bytes,
            None => r is None,
        },
{
    let trimmed_text = trim(s);
    let text = strip_padding(trimmed_text.as_str());
    let body = text.as_str().as_bytes();
    let ghost model = body@;
    let mut out: Vec<u8> = Vec::new();
    let mut acc: u32 = 0;
    let mut bits: u32 = 0;
    let mut i: usize = 0;
    while i < body.len()
        invariant
            i <= body@.len(),
            model == body@,
            model == encode_utf8(unpadded(trimmed(s@))),
            bits == bits_left(i as nat),
            bits < 8,
            acc < two_to(bits as nat),
            acc == sextets_value(model, i as nat) % two_to(bits as nat),
            out@ == decoded(model, i as nat),
            forall|k: int| 0 <= k < i ==> sextet(#[trigger] model[k]) is Some,
        decreases body@.len() - i,
    {
        let v: u8 = match six_bits(body[i]) {
            Some(v) => v,
            None => {
                assert(sextet(model[i as int]) is None);
                assert(!in_alphabet(model));
                return None;
            },
        };
        proof {
            lemma_left(i as nat);
            lemma_step(sextets_value(model, i as nat), bits as nat, acc as nat, v as nat);
        }
        acc = acc * 64 + v as u32;
        bits = bits + 6;
        if bits >= 8 {
            bits = bits - 8;
            if bits == 0 {
                out.push((acc % 256) as u8);
                acc = 0;
            } else if bits == 2 {
                out.push(((acc / 4) % 256) as u8);
                acc = acc % 4;
            } else {
                out.push(((acc / 16) % 256) as u8);
                acc = acc % 16;
            }
        }
        i = i + 1;
    }
    Some(out)
}

/// How the bits that are left over go on with six more.
proof fn lemma_step(value: nat, bits: nat, acc: nat, v: nat)
    requires
        bits == 0 || bits == 2 || bits == 4 || bits == 6,
        v < 64,
        acc == value % two_to(bits),
    ensures
        two_to(0) == 1,
        two_to(2) == 4,
        two_to(4) == 16,
        two_to(6) == 64,
        acc * 64 + v < 4096,
        bits == 0 ==> acc * 64 + v == (value * 64 + v) % 64,
        bits == 2 ==> (acc * 64 + v) % 256 == ((value * 64 + v) / 1) % 256,
        bits == 4 ==> ((acc * 64 + v) / 4) % 256 == ((value * 64 + v) / 4) % 256 && (acc * 64 + v)
            % 4 == (value * 64 + v) % 4,
        bits == 6 ==> ((acc * 64 + v) / 16) % 256 == ((value * 64 + v) / 16) % 256 && (acc * 64
            + v) % 16 == (value * 64 + v) % 16,
{
    reveal_with_fuel(two_to, 8);
    if bits == 0 {
        assert((value * 64 + v) % 64 == v);
    } else if bits == 2 {
        let q = value / 4;
        assert(value == 4 * q + acc);
        assert(value * 64 + v == 256 * q + (acc * 64 + v));
    } else if bits == 4 {
        let q = value / 16;
        assert(value == 16 * q + acc);
        assert(value * 64 + v == 1024 * q + (acc * 64 + v));
        assert((value * 64 + v) / 4 == 256 * q + (acc * 64 + v) / 4);
    } else {
        let q = value / 64;
        assert(value == 64 * q + acc);
        assert(value * 64 + v == 4096 * q + (acc * 64 + v));
        assert((value * 64 + v) / 16 == 256 * q + (acc * 64 + v) / 16);
    }
}

} // verus!
