//! Signed requests to a bucket, and what their answers say.

use vstd::prelude::*;
use vstd::utf8::{decode_utf8, valid_utf8};

use super::clock::{amz_timestamp, stamps};
use super::config::{S3Config, S3Error};
use super::sign::{
    authorization, canonical_path, Headers, host_in, host_of, object_path, sha256_hex, sha256_of,
    sign_v4, uri_encode, uri_text, with_header,
};
use super::xml::{all_between, between, between_all, between_from, unescaped, xml_unescape};
use crate::net::auth::hex;
use crate::text::{chars_of, decimal, parse_u64, piece, push_decimal, unsigned_text, views};

verus! {

/// A request, ready to be sent. The host goes along by itself, as part of the URL.
#[derive(Debug)]
pub struct SignedRequest {
    pub method: String,
    pub url: String,
    pub authorization: String,
    pub payload_hash: String,
    pub amzdate: String,
}

/// A text without the slashes at its end.
pub open spec fn without_slashes(s: Seq<char>) -> Seq<char>
    decreases s.len(),
{
    if s.len() > 0 && s.last() == '/' {
        without_slashes(s.drop_last())
    } else {
        s
    }
}

fn strip_slashes(s: &str) -> (r: String)
    ensures
        r@ == without_slashes(s@),
{
    let chars = chars_of(s);
    let mut n: usize = chars.len();
    assert(chars@.subrange(0, n as int) =~= chars@);
    while n > 0 && chars[n - 1] == '/'
        invariant
            n <= chars@.len(),
            chars@ == s@,
            without_slashes(s@) == without_slashes(chars@.subrange(0, n as int)),
        decreases n,
    {
        let ghost here = chars@.subrange(0, n as int);
        assert(here.drop_last() =~= chars@.subrange(0, n - 1));
        n = n - 1;
    }
    piece(&chars, 0, n)
}

/// The headers that a signature covers.
pub open spec fn covered(
    host: Seq<char>,
    payload_hash: Seq<char>,
    amzdate: Seq<char>,
) -> Seq<(Seq<char>, Seq<char>)> {
    with_header(
        with_header(
            with_header(Seq::empty(), "host"@, host),
            "x-amz-content-sha256"@,
            payload_hash,
        ),
        "x-amz-date"@,
        amzdate,
    )
}

pub open spec fn url_of(endpoint: Seq<char>, path: Seq<char>, query: Seq<char>) -> Seq<char> {
    if query.len() == 0 {
        without_slashes(endpoint) + path
    } else {
        without_slashes(endpoint) + path + seq!['?'] + query
    }
}

/// Whether this is the signed request for an object, made at a moment of a day.
pub open spec fn signed_on(
    day: Seq<char>,
    cfg: S3Config,
    method: Seq<char>,
    key: Seq<char>,
    query: Seq<char>,
    body: Seq<u8>,
    secs: nat,
    r: SignedRequest,
) -> bool {
    let path = object_path(cfg.bucket@, key);
    &&& stamps(secs, r.amzdate@, day)
    &&& r.method@ == method
    &&& r.url@ == url_of(cfg.endpoint@, path, query)
    &&& r.payload_hash@ == hex(sha256_of(body))
    &&& r.authorization@ == authorization(
        cfg.access_key@,
        cfg.secret_key@,
        cfg.region@,
        "s3"@,
        method,
        path,
        query,
        covered(host_in(cfg.endpoint@), r.payload_hash@, r.amzdate@),
        r.payload_hash@,
        r.amzdate@,
        day,
    )
}

/// Whether this is the signed request for an object, made at a moment.
pub open spec fn signed(
    cfg: S3Config,
    method: Seq<char>,
    key: Seq<char>,
    query: Seq<char>,
    body: Seq<u8>,
    secs: nat,
    r: SignedRequest,
) -> bool {
    exists|day: Seq<char>| #[trigger] signed_on(day, cfg, method, key, query, body, secs, r)
}

impl S3Config {
    /// Signs a request for an object, made at a moment in seconds since the start of 1970. The
    /// query is written in order of its names, and encoded.
    pub fn sign(&self, method: &str, key: &str, query: &str, body: &[u8], secs: u64) -> (r:
        SignedRequest)
        ensures
            signed(*self, method@, key@, query@, body@, secs as nat, r),
    {
        let (amzdate, day) = amz_timestamp(secs);
        let payload_hash = sha256_hex(body);
        let path = canonical_path(self.bucket.as_str(), key);
        let mut headers = Headers::new();
        headers.insert("host".to_owned(), host_of(self.endpoint.as_str()));
        headers.insert("x-amz-content-sha256".to_owned(), payload_hash.clone());
        headers.insert("x-amz-date".to_owned(), amzdate.clone());
        let authorization = sign_v4(
            self.access_key.as_str(),
            self.secret_key.as_str(),
            self.region.as_str(),
            "s3",
            method,
            path.as_str(),
            query,
            &headers,
            payload_hash.as_str(),
            amzdate.as_str(),
            day.as_str(),
        );
        let mut url = strip_slashes(self.endpoint.as_str());
        url.append(path.as_str());
        if !query.is_empty() {
            url.push('?');
            url.append(query);
        }
        assert(url@ =~= url_of(self.endpoint@, path@, query@));
        let r = SignedRequest {
            method: method.to_owned(),
            url,
            authorization,
            payload_hash,
            amzdate,
        };
        assert(signed_on(day@, *self, method@, key@, query@, body@, secs as nat, r));
        r
    }
}

/// The `Range` header for some bytes of an object.
pub fn range_header(start: u64, len: u64) -> (r: String)
    requires
        len > 0,
        start + len <= u64::MAX,
    ensures
        r@ == "bytes="@ + decimal(start as nat) + seq!['-'] + decimal((start + len - 1) as nat),
{
    let mut out = "bytes=".to_owned();
    push_decimal(&mut out, start);
    out.push('-');
    push_decimal(&mut out, start + len - 1);
    out
}

/// The size of an object, out of the `Content-Length` that a `HEAD` was answered with.
pub fn content_length(header: Option<&str>) -> (r: Result<u64, S3Error>)
    ensures
        match header {
            Some(h) => match unsigned_text(h@) {
                Some(n) => if n <= u64::MAX {
                    r == Ok::<u64, S3Error>(n as u64)
                } else {
                    no_length(r)
                },
                None => no_length(r),
            },
            None => no_length(r),
        },
{
    let size = match header {
        Some(h) => parse_u64(h),
        None => None,
    };
    match size {
        Some(n) => Ok(n),
        None => Err(S3Error::Transport("HEAD response had no Content-Length".to_owned())),
    }
}

pub open spec fn no_length(r: Result<u64, S3Error>) -> bool {
    r matches Err(S3Error::Transport(m)) && m@ == "HEAD response had no Content-Length"@
}

// ---- listing -----------------------------------------------------------------------------------

/// What `String::from_utf8_lossy` makes of bytes.
pub uninterp spec fn lossy_of(bytes: Seq<u8>) -> Seq<char>;

/// `String::from_utf8_lossy`: the text of some bytes. Where they are UTF-8 it is the text that they
/// encode; where they are not, what stands for the rest depends on the bytes alone.
#[verifier::external_body]
fn lossy_text(bytes: &[u8]) -> (r: String)
    ensures
        r@ == lossy_of(bytes@),
        valid_utf8(bytes@) ==> r@ == decode_utf8(bytes@),
{
    String::from_utf8_lossy(bytes).into_owned()
}

pub open spec fn parameter(name: Seq<char>, value: Seq<char>) -> Seq<char> {
    uri_text(name, false) + seq!['='] + uri_text(value, false)
}

/// The query that lists objects under a prefix, from where another listing stopped: its parameters
/// in order of their names.
pub open spec fn list_query_of(prefix: Seq<char>, token: Option<Seq<char>>) -> Seq<char> {
    let kind = parameter("list-type"@, "2"@);
    let head = match token {
        Some(t) => parameter("continuation-token"@, t) + seq!['&'] + kind,
        None => kind,
    };
    if prefix.len() == 0 {
        head
    } else {
        head + seq!['&'] + parameter("prefix"@, prefix)
    }
}

fn push_parameter(out: &mut String, name: &str, value: &str)
    ensures
        final(out)@ == old(out)@ + parameter(name@, value@),
{
    let ghost before = out@;
    let n = uri_encode(name, false);
    let v = uri_encode(value, false);
    out.append(n.as_str());
    out.push('=');
    out.append(v.as_str());
    assert(out@ =~= before + parameter(name@, value@));
}

pub open spec fn text_option(t: Option<String>) -> Option<Seq<char>> {
    match t {
        Some(s) => Some(s@),
        None => None,
    }
}

/// A listing in the making: the keys found so far, and where it goes on.
#[derive(Debug)]
pub struct Listing {
    pub prefix: String,
    pub keys: Vec<String>,
    pub token: Option<String>,
}

/// The keys on a page.
pub open spec fn page_keys(xml: Seq<char>) -> Seq<Seq<char>> {
    all_between(xml, "<Key>"@, "</Key>"@, 0).map_values(|k: Seq<char>| unescaped(k))
}

/// Where a listing goes on after a page, if it does.
pub open spec fn page_token(xml: Seq<char>) -> Option<Seq<char>> {
    match between_from(xml, "<NextContinuationToken>"@, "</NextContinuationToken>"@, 0) {
        Some((t, _)) => Some(unescaped(t)),
        None => None,
    }
}

impl Listing {
    pub fn new(prefix: &str) -> (r: Listing)
        ensures
            r.prefix@ == prefix@,
            views(r.keys@) == Seq::<Seq<char>>::empty(),
            r.token is None,
    {
        let r = Listing { prefix: prefix.to_owned(), keys: Vec::new(), token: None };
        assert(views(r.keys@) =~= Seq::empty());
        r
    }

    /// The query of the next page.
    pub fn query(&self) -> (r: String)
        ensures
            r@ == list_query_of(self.prefix@, text_option(self.token)),
    {
        let mut out = String::new();
        if let Some(t) = &self.token {
            push_parameter(&mut out, "continuation-token", t.as_str());
            out.push('&');
        }
        push_parameter(&mut out, "list-type", "2");
        if !self.prefix.as_str().is_empty() {
            out.push('&');
            push_parameter(&mut out, "prefix", self.prefix.as_str());
        }
        assert(out@ =~= list_query_of(self.prefix@, text_option(self.token)));
        out
    }

    /// Takes in a page, as it was received: its keys, and whether there is another one after it.
    pub fn page(&mut self, body: &[u8]) -> (r: bool)
        ensures
            final(self).prefix == old(self).prefix,
            views(final(self).keys@) == views(old(self).keys@) + page_keys(lossy_of(body@)),
            text_option(final(self).token) == page_token(lossy_of(body@)),
            r == (final(self).token is Some),
    {
        let xml = lossy_text(body);
        self.take_page(xml.as_str())
    }

    /// Takes in the text of a page.
    pub fn take_page(&mut self, xml: &str) -> (r: bool)
        ensures
            final(self).prefix == old(self).prefix,
            views(final(self).keys@) == views(old(self).keys@) + page_keys(xml@),
            text_option(final(self).token) == page_token(xml@),
            r == (final(self).token is Some),
    {
        proof {
            reveal_strlit("<Key>");
        }
        let found = between_all(xml, "<Key>", "</Key>");
        let ghost raw = all_between(xml@, "<Key>"@, "</Key>"@, 0);
        let ghost model = page_keys(xml@);
        let ghost before = views(self.keys@);
        assert(views(found@).len() == found@.len());
        let mut i: usize = 0;
        assert(before + model.take(0) =~= before);
        while i < found.len()
            invariant
                i <= found@.len(),
                views(found@) == raw,
                model == raw.map_values(|k: Seq<char>| unescaped(k)),
                views(self.keys@) == before + model.take(i as int),
                self.prefix == old(self).prefix,
            decreases found@.len() - i,
        {
            let ghost here = self.keys@;
            let key = xml_unescape(found[i].as_str());
            proof {
                assert(raw[i as int] == found@[i as int]@);
                assert(model[i as int] == key@);
            }
            self.keys.push(key);
            proof {
                assert(views(self.keys@) =~= views(here).push(model[i as int]));
                assert(model.take(i as int + 1) =~= model.take(i as int).push(model[i as int]));
                assert(views(self.keys@) =~= before + model.take(i as int + 1));
            }
            i = i + 1;
        }
        assert(model.take(found@.len() as int) =~= model);
        self.token = match between(xml, "<NextContinuationToken>", "</NextContinuationToken>") {
            Some(t) => Some(xml_unescape(t.as_str())),
            None => None,
        };
        self.token.is_some()
    }
}

} // verus!
