//! AWS Signature Version 4.

use vstd::prelude::*;
use vstd::utf8::encode_utf8;

use hmac::{Hmac, Mac};
use sha2::{Digest, Sha256};

use super::xml::{find, find_text};
use crate::lines::{split_at_first, split_once, trim, trimmed};
use crate::net::auth::{hex, hex_digit, name_order, push_hex};
use crate::storage::doubles::Order;
use crate::text::{chars_of, piece, string_of};

verus! {

// ---- hashes ------------------------------------------------------------------------------------

/// What `sha2::Sha256` makes of bytes.
pub uninterp spec fn sha256_of(data: Seq<u8>) -> Seq<u8>;

/// What `hmac::Hmac<sha2::Sha256>` makes of bytes under a key.
pub uninterp spec fn hmac_of(key: Seq<u8>, data: Seq<u8>) -> Seq<u8>;

/// `sha2::Sha256::digest`: the 32-byte hash of some bytes, which depends on the bytes alone.
#[verifier::external_body]
fn sha256(data: &[u8]) -> (r: Vec<u8>)
    ensures
        r@ == sha256_of(data@),
        r@.len() == 32,
{
    Sha256::digest(data).to_vec()
}

/// `hmac::Hmac<sha2::Sha256>`, which takes a key of any length: the 32-byte authentication code of
/// some bytes under a key, which depends on both alone.
#[verifier::external_body]
fn hmac_sha256(key: &[u8], data: &[u8]) -> (r: Vec<u8>)
    ensures
        r@ == hmac_of(key@, data@),
        r@.len() == 32,
{
    let mut mac = <Hmac<Sha256> as Mac>::new_from_slice(key).expect("HMAC accepts any key length");
    mac.update(data);
    mac.finalize().into_bytes().to_vec()
}

/// Whether a text is made of hexadecimal digits in lower case.
pub open spec fn lower_hex(s: Seq<char>) -> bool {
    forall|i: int|
        0 <= i < s.len() ==> '0' <= (#[trigger] s[i]) <= '9' || 'a' <= s[i] <= 'f'
}

/// Bytes are written as two lower-case hexadecimal digits each.
pub proof fn law_two_digits_a_byte(bytes: Seq<u8>)
    ensures
        hex(bytes).len() == 2 * bytes.len(),
        lower_hex(hex(bytes)),
    decreases bytes.len(),
{
    if bytes.len() > 0 {
        let rest = bytes.drop_last();
        law_two_digits_a_byte(rest);
        let s = hex(bytes);
        assert(s == hex(rest).push(hex_digit(bytes.last() as nat / 16)).push(
            hex_digit(bytes.last() as nat % 16),
        ));
        assert forall|i: int| 0 <= i < s.len() implies '0' <= (#[trigger] s[i]) <= '9' || 'a'
            <= s[i] <= 'f' by {
            if i < hex(rest).len() {
                assert(s[i] == hex(rest)[i]);
            }
        }
    }
}

/// The hash of some bytes, in 64 hexadecimal digits.
pub fn sha256_hex(data: &[u8]) -> (r: String)
    ensures
        r@ == hex(sha256_of(data@)),
        r@.len() == 64,
        lower_hex(r@),
{
    let digest = sha256(data);
    let mut out = String::new();
    push_hex(&mut out, digest.as_slice());
    proof {
        law_two_digits_a_byte(digest@);
    }
    assert(out@ =~= hex(sha256_of(data@)));
    out
}

// ---- headers -----------------------------------------------------------------------------------

/// Headers in the order of their names, each name once.
#[derive(Debug)]
pub struct Headers {
    entries: Vec<(String, String)>,
}

pub open spec fn header_views(v: Seq<(String, String)>) -> Seq<(Seq<char>, Seq<char>)> {
    v.map_values(|e: (String, String)| (e.0@, e.1@))
}

impl View for Headers {
    type V = Seq<(Seq<char>, Seq<char>)>;

    closed spec fn view(&self) -> Seq<(Seq<char>, Seq<char>)> {
        header_views(self.entries@)
    }
}

/// Headers with one set: in the place of an equal name, or where its name belongs.
pub open spec fn with_header(
    all: Seq<(Seq<char>, Seq<char>)>,
    name: Seq<char>,
    value: Seq<char>,
) -> Seq<(Seq<char>, Seq<char>)>
    decreases all.len(),
{
    if all.len() == 0 {
        seq![(name, value)]
    } else {
        match name_order(all[0].0, name) {
            Order::Less => seq![all[0]] + with_header(all.drop_first(), name, value),
            Order::Equal => seq![(name, value)] + all.drop_first(),
            Order::Greater => seq![(name, value)] + all,
        }
    }
}

impl Headers {
    pub fn new() -> (r: Headers)
        ensures
            r@ == Seq::<(Seq<char>, Seq<char>)>::empty(),
    {
        let r = Headers { entries: Vec::new() };
        assert(r@ =~= Seq::empty());
        r
    }

    /// Sets a header.
    pub fn insert(&mut self, name: String, value: String)
        ensures
            final(self)@ == with_header(old(self)@, name@, value@),
    {
        let ghost before = self@;
        let ghost (n, v) = (name@, value@);
        let mut at: usize = 0;
        assert(before.take(0) + with_header(before.skip(0), n, v) =~= with_header(before, n, v)) by {
            assert(before.skip(0) =~= before);
        }
        while at < self.entries.len()
            invariant
                at <= self.entries@.len(),
                before == header_views(self.entries@),
                before == old(self)@,
                n == name@,
                v == value@,
                with_header(before, n, v) == before.take(at as int) + with_header(
                    before.skip(at as int),
                    n,
                    v,
                ),
            decreases self.entries@.len() - at,
        {
            let ghost tail = before.skip(at as int);
            proof {
                assert(tail[0] == before[at as int]);
                assert(before[at as int] == (
                    self.entries@[at as int].0@,
                    self.entries@[at as int].1@,
                ));
                assert(tail.drop_first() =~= before.skip(at as int + 1));
            }
            match crate::query::order::order_texts(self.entries[at].0.as_str(), name.as_str()) {
                Order::Less => {
                    assert(before.take(at as int + 1) =~= before.take(at as int).push(
                        before[at as int],
                    ));
                    assert(before.take(at as int) + (seq![tail[0]] + with_header(
                        tail.drop_first(),
                        n,
                        v,
                    )) =~= before.take(at as int + 1) + with_header(
                        before.skip(at as int + 1),
                        n,
                        v,
                    ));
                    at = at + 1;
                },
                Order::Equal => {
                    self.entries.remove(at);
                    self.entries.insert(at, (name, value));
                    assert(self@ =~= before.take(at as int) + (seq![(n, v)] + tail.drop_first()));
                    return;
                },
                Order::Greater => {
                    self.entries.insert(at, (name, value));
                    assert(self@ =~= before.take(at as int) + (seq![(n, v)] + tail));
                    return;
                },
            }
        }
        self.entries.push((name, value));
        proof {
            assert(before.skip(at as int) =~= Seq::empty());
            assert(self@ =~= before.take(at as int) + seq![(n, v)]);
        }
    }
}

// ---- the canonical request ---------------------------------------------------------------------

/// A byte that stays as it is in a URI.
pub open spec fn unreserved(b: u8) -> bool {
    (65 <= b <= 90) || (97 <= b <= 122) || (48 <= b <= 57) || b == 45 || b == 46 || b == 95 || b == 126
}

pub open spec fn upper_digit(n: nat) -> char {
    if n < 10 {
        (48 + n) as u8 as char
    } else {
        (55 + n) as u8 as char
    }
}

/// A byte as it stands in a URI.
pub open spec fn uri_byte(b: u8, keep_slash: bool) -> Seq<char> {
    if unreserved(b) || (b == 47 && keep_slash) {
        seq![b as char]
    } else {
        seq!['%', upper_digit(b as nat / 16), upper_digit(b as nat % 16)]
    }
}

pub open spec fn uri_bytes(s: Seq<u8>, keep_slash: bool) -> Seq<char>
    decreases s.len(),
{
    if s.len() == 0 {
        Seq::empty()
    } else {
        uri_bytes(s.drop_last(), keep_slash) + uri_byte(s.last(), keep_slash)
    }
}

/// A text as it stands in a URI: letters, digits and a few marks stay, a slash stays in a path, and
/// every other byte is written out.
pub open spec fn uri_text(s: Seq<char>, keep_slash: bool) -> Seq<char> {
    uri_bytes(encode_utf8(s), keep_slash)
}

fn upper_hex(n: u8) -> (r: char)
    requires
        n < 16,
    ensures
        r == upper_digit(n as nat),
{
    if n < 10 {
        (48 + n) as char
    } else {
        (55 + n) as char
    }
}

/// Encodes a text for a URI.
pub fn uri_encode(s: &str, keep_slash: bool) -> (r: String)
    ensures
        r@ == uri_text(s@, keep_slash),
{
    let bytes = s.as_bytes();
    let mut out = String::new();
    let mut i: usize = 0;
    assert(bytes@.take(0) =~= Seq::empty());
    assert(out@ =~= uri_bytes(bytes@.take(0), keep_slash));
    while i < bytes.len()
        invariant
            i <= bytes@.len(),
            out@ == uri_bytes(bytes@.take(i as int), keep_slash),
        decreases bytes@.len() - i,
    {
        let b: u8 = bytes[i];
        let ghost before = out@;
        proof {
            assert(bytes@.take(i as int + 1).drop_last() =~= bytes@.take(i as int));
            assert(bytes@.take(i as int + 1).last() == b);
        }
        let plain = (b >= 65 && b <= 90) || (b >= 97 && b <= 122) || (b >= 48 && b <= 57) || b == 45
            || b == 46 || b == 95 || b == 126 || (b == 47 && keep_slash);
        if plain {
            out.push(b as char);
            assert(out@ =~= before + uri_byte(b, keep_slash));
        } else {
            out.push('%');
            out.push(upper_hex(b / 16));
            out.push(upper_hex(b % 16));
            assert(out@ =~= before + uri_byte(b, keep_slash));
        }
        i = i + 1;
    }
    assert(bytes@.take(bytes@.len() as int) =~= bytes@);
    out
}

/// The path of an object, or of its bucket where the key is empty.
pub open spec fn object_path(bucket: Seq<char>, key: Seq<char>) -> Seq<char> {
    if key.len() == 0 {
        seq!['/'] + uri_text(bucket, false)
    } else {
        seq!['/'] + uri_text(bucket, false) + seq!['/'] + uri_text(key, true)
    }
}

/// The path of an object.
pub fn canonical_path(bucket: &str, key: &str) -> (r: String)
    ensures
        r@ == object_path(bucket@, key@),
{
    let mut out = String::new();
    out.push('/');
    let b = uri_encode(bucket, false);
    out.append(b.as_str());
    if !key.is_empty() {
        out.push('/');
        let k = uri_encode(key, true);
        out.append(k.as_str());
    }
    assert(out@ =~= object_path(bucket@, key@));
    out
}

/// The part of an endpoint after its scheme, up to another one.
pub open spec fn after_scheme(endpoint: Seq<char>) -> Seq<char> {
    match find_text(endpoint, "://"@, 0) {
        None => endpoint,
        Some(i) => {
            let rest = endpoint.subrange(i + 3, endpoint.len() as int);
            match find_text(rest, "://"@, 0) {
                None => rest,
                Some(j) => rest.subrange(0, j),
            }
        },
    }
}

/// The host of an endpoint.
pub open spec fn host_in(endpoint: Seq<char>) -> Seq<char> {
    let rest = after_scheme(endpoint);
    match split_at_first(rest, '/') {
        Some((host, _)) => host,
        None => rest,
    }
}

/// The host of an endpoint.
pub fn host_of(endpoint: &str) -> (r: String)
    ensures
        r@ == host_in(endpoint@),
{
    proof {
        reveal_strlit("://");
    }
    let chars = chars_of(endpoint);
    let mark = chars_of("://");
    let rest = match find(&chars, &mark, 0) {
        None => endpoint.to_owned(),
        Some(i) => {
            let size: usize = chars.len();
            assert(mark@.len() == 3);
            assert(i + 3 <= size);
            let tail = chars_of(piece(&chars, i + 3, chars.len()).as_str());
            match find(&tail, &mark, 0) {
                None => string_of(&tail),
                Some(j) => piece(&tail, 0, j),
            }
        },
    };
    match split_once(rest.as_str(), '/') {
        Some((host, _)) => host,
        None => rest,
    }
}

pub open spec fn header_lines(all: Seq<(Seq<char>, Seq<char>)>) -> Seq<char>
    decreases all.len(),
{
    if all.len() == 0 {
        Seq::empty()
    } else {
        header_lines(all.drop_last()) + all.last().0 + seq![':'] + trimmed(all.last().1) + seq![
            '\n',
        ]
    }
}

pub open spec fn header_names(all: Seq<(Seq<char>, Seq<char>)>) -> Seq<char>
    decreases all.len(),
{
    if all.len() == 0 {
        Seq::empty()
    } else if all.len() == 1 {
        all.last().0
    } else {
        header_names(all.drop_last()) + seq![';'] + all.last().0
    }
}

fn print_headers(h: &Headers) -> (r: (String, String))
    ensures
        r.0@ == header_lines(h@),
        r.1@ == header_names(h@),
{
    let ghost model = h@;
    let mut lines = String::new();
    let mut names = String::new();
    let mut i: usize = 0;
    assert(model.take(0) =~= Seq::empty());
    assert(lines@ =~= header_lines(model.take(0)));
    assert(names@ =~= header_names(model.take(0)));
    while i < h.entries.len()
        invariant
            i <= h.entries@.len(),
            model == header_views(h.entries@),
            lines@ == header_lines(model.take(i as int)),
            names@ == header_names(model.take(i as int)),
        decreases h.entries@.len() - i,
    {
        proof {
            let next = model.take(i as int + 1);
            assert(next.drop_last() =~= model.take(i as int));
            assert(next.last() == (h.entries@[i as int].0@, h.entries@[i as int].1@));
        }
        let value = trim(h.entries[i].1.as_str());
        lines.append(h.entries[i].0.as_str());
        lines.push(':');
        lines.append(value.as_str());
        lines.push('\n');
        if i > 0 {
            names.push(';');
        }
        names.append(h.entries[i].0.as_str());
        proof {
            let next = model.take(i as int + 1);
            assert(lines@ =~= header_lines(next));
            assert(names@ =~= header_names(next));
        }
        i = i + 1;
    }
    assert(model.take(h.entries@.len() as int) =~= model);
    (lines, names)
}

/// What is signed of a request.
pub open spec fn canonical_request(
    method: Seq<char>,
    uri: Seq<char>,
    query: Seq<char>,
    headers: Seq<(Seq<char>, Seq<char>)>,
    payload_hash: Seq<char>,
) -> Seq<char> {
    method + seq!['\n'] + uri + seq!['\n'] + query + seq!['\n'] + header_lines(headers) + seq!['\n']
        + header_names(headers) + seq!['\n'] + payload_hash
}

pub open spec fn scope(datestamp: Seq<char>, region: Seq<char>, service: Seq<char>) -> Seq<char> {
    datestamp + seq!['/'] + region + seq!['/'] + service + "/aws4_request"@
}

/// What is signed in a scope at a moment, given the hash of the canonical request.
pub open spec fn string_to_sign(amzdate: Seq<char>, scope: Seq<char>, request_hash: Seq<u8>) -> Seq<
    char,
> {
    "AWS4-HMAC-SHA256\n"@ + amzdate + seq!['\n'] + scope + seq!['\n'] + hex(request_hash)
}

/// The header that a signature goes out in.
pub open spec fn signed_header(
    access_key: Seq<char>,
    scope: Seq<char>,
    headers: Seq<(Seq<char>, Seq<char>)>,
    signature: Seq<u8>,
) -> Seq<char> {
    "AWS4-HMAC-SHA256 Credential="@ + access_key + seq!['/'] + scope + ", SignedHeaders="@
        + header_names(headers) + ", Signature="@ + hex(signature)
}

/// What is signed of a request.
pub fn request_to_sign(
    method: &str,
    canonical_uri: &str,
    canonical_query: &str,
    signed_headers: &Headers,
    payload_hash: &str,
) -> (r: String)
    ensures
        r@ == canonical_request(
            method@,
            canonical_uri@,
            canonical_query@,
            signed_headers@,
            payload_hash@,
        ),
{
    let (lines, names) = print_headers(signed_headers);
    let mut request = method.to_owned();
    request.push('\n');
    request.append(canonical_uri);
    request.push('\n');
    request.append(canonical_query);
    request.push('\n');
    request.append(lines.as_str());
    request.push('\n');
    request.append(names.as_str());
    request.push('\n');
    request.append(payload_hash);
    assert(request@ =~= canonical_request(
        method@,
        canonical_uri@,
        canonical_query@,
        signed_headers@,
        payload_hash@,
    ));
    request
}

/// The day, the region and the service that a signature holds for.
pub fn credential_scope(datestamp: &str, region: &str, service: &str) -> (r: String)
    ensures
        r@ == scope(datestamp@, region@, service@),
{
    let mut place = datestamp.to_owned();
    place.push('/');
    place.append(region);
    place.push('/');
    place.append(service);
    place.append("/aws4_request");
    assert(place@ =~= scope(datestamp@, region@, service@));
    place
}

/// What is signed in a scope at a moment, given the hash of the canonical request.
pub fn text_to_sign(amzdate: &str, place: &str, request_hash: &Vec<u8>) -> (r: String)
    ensures
        r@ == string_to_sign(amzdate@, place@, request_hash@),
{
    let mut text = "AWS4-HMAC-SHA256\n".to_owned();
    text.append(amzdate);
    text.push('\n');
    text.append(place);
    text.push('\n');
    push_hex(&mut text, request_hash.as_slice());
    assert(text@ =~= string_to_sign(amzdate@, place@, request_hash@));
    text
}

/// The header that a signature goes out in.
pub fn header_to_send(access_key: &str, place: &str, signed_headers: &Headers, signature: &Vec<u8>) -> (r:
    String)
    ensures
        r@ == signed_header(access_key@, place@, signed_headers@, signature@),
{
    let (_, names) = print_headers(signed_headers);
    let mut out = "AWS4-HMAC-SHA256 Credential=".to_owned();
    out.append(access_key);
    out.push('/');
    out.append(place);
    out.append(", SignedHeaders=");
    out.append(names.as_str());
    out.append(", Signature=");
    push_hex(&mut out, signature.as_slice());
    assert(out@ =~= signed_header(access_key@, place@, signed_headers@, signature@));
    out
}

/// The key that a day's requests to a service are signed with: the secret, hashed through the day,
/// the region and the service in turn.
pub open spec fn day_key(
    secret: Seq<char>,
    datestamp: Seq<char>,
    region: Seq<char>,
    service: Seq<char>,
) -> Seq<u8> {
    let date = hmac_of(encode_utf8("AWS4"@ + secret), encode_utf8(datestamp));
    let place = hmac_of(date, encode_utf8(region));
    let what = hmac_of(place, encode_utf8(service));
    hmac_of(what, encode_utf8("aws4_request"@))
}

fn signing_key(secret: &str, datestamp: &str, region: &str, service: &str) -> (r: Vec<u8>)
    ensures
        r@ == day_key(secret@, datestamp@, region@, service@),
{
    let mut first = "AWS4".to_owned();
    first.append(secret);
    let date = hmac_sha256(first.as_str().as_bytes(), datestamp.as_bytes());
    let place = hmac_sha256(date.as_slice(), region.as_bytes());
    let what = hmac_sha256(place.as_slice(), service.as_bytes());
    hmac_sha256(what.as_slice(), "aws4_request".as_bytes())
}

/// The value of a request's `Authorization` header.
pub open spec fn authorization(
    access_key: Seq<char>,
    secret_key: Seq<char>,
    region: Seq<char>,
    service: Seq<char>,
    method: Seq<char>,
    uri: Seq<char>,
    query: Seq<char>,
    headers: Seq<(Seq<char>, Seq<char>)>,
    payload_hash: Seq<char>,
    amzdate: Seq<char>,
    datestamp: Seq<char>,
) -> Seq<char> {
    let place = scope(datestamp, region, service);
    let request = canonical_request(method, uri, query, headers, payload_hash);
    let signature = hmac_of(
        day_key(secret_key, datestamp, region, service),
        encode_utf8(string_to_sign(amzdate, place, sha256_of(encode_utf8(request)))),
    );
    signed_header(access_key, place, headers, signature)
}

/// Whether a header ends in a signature of 64 hexadecimal digits.
pub open spec fn ends_in_signature(
    header: Seq<char>,
    access_key: Seq<char>,
    scope: Seq<char>,
    headers: Seq<(Seq<char>, Seq<char>)>,
) -> bool {
    exists|signature: Seq<u8>|
        signature.len() == 32 && header == #[trigger] signed_header(
            access_key,
            scope,
            headers,
            signature,
        ) && hex(signature).len() == 64 && lower_hex(hex(signature)) && header.skip(
            header.len() - 64,
        ) == hex(signature)
}

/// The value of a request's `Authorization` header, by AWS Signature Version 4.
pub fn sign_v4(
    access_key: &str,
    secret_key: &str,
    region: &str,
    service: &str,
    method: &str,
    canonical_uri: &str,
    canonical_query: &str,
    signed_headers: &Headers,
    payload_hash: &str,
    amzdate: &str,
    datestamp: &str,
) -> (r: String)
    ensures
        r@ == authorization(
            access_key@,
            secret_key@,
            region@,
            service@,
            method@,
            canonical_uri@,
            canonical_query@,
            signed_headers@,
            payload_hash@,
            amzdate@,
            datestamp@,
        ),
        ends_in_signature(
            r@,
            access_key@,
            scope(datestamp@, region@, service@),
            signed_headers@,
        ),
{
    let request = request_to_sign(
        method,
        canonical_uri,
        canonical_query,
        signed_headers,
        payload_hash,
    );
    let request_hash = sha256(request.as_str().as_bytes());
    let place = credential_scope(datestamp, region, service);
    let text = text_to_sign(amzdate, place.as_str(), &request_hash);
    let key = signing_key(secret_key, datestamp, region, service);
    let signature = hmac_sha256(key.as_slice(), text.as_str().as_bytes());
    let out = header_to_send(access_key, place.as_str(), signed_headers, &signature);
    proof {
        law_two_digits_a_byte(signature@);
        assert(out@ == signed_header(access_key@, place@, signed_headers@, signature@));
        assert(out@.skip(out@.len() - 64) =~= hex(signature@));
    }
    out
}

} // verus!
