//! Where a bucket is, and what can go wrong there.

use vstd::prelude::*;

use crate::text::{decimal, push_decimal};

verus! {

/// Where and how to reach a bucket. The endpoint is a scheme and a host, and a port where it is not
/// the usual one.
#[derive(Debug)]
pub struct S3Config {
    pub endpoint: String,
    pub bucket: String,
    pub region: String,
    pub access_key: String,
    pub secret_key: String,
}

/// A failed operation.
#[derive(Debug)]
pub enum S3Error {
    /// The server answered with a status that is no success; its body says why.
    Status { code: u16, body: String },
    /// The request never completed.
    Transport(String),
}

impl S3Error {
    pub open spec fn message(self) -> Seq<char> {
        match self {
            S3Error::Status { code, body } => "S3 returned "@ + decimal(code as nat) + ": "@ + body@,
            S3Error::Transport(e) => "S3 transport error: "@ + e@,
        }
    }

    /// The failure in words.
    pub fn to_text(&self) -> (r: String)
        ensures
            r@ == self.message(),
    {
        match self {
            S3Error::Status { code, body } => {
                let mut m = "S3 returned ".to_owned();
                push_decimal(&mut m, *code as u64);
                m.append(": ");
                m.append(body.as_str());
                m
            },
            S3Error::Transport(e) => {
                let mut m = "S3 transport error: ".to_owned();
                m.append(e.as_str());
                m
            },
        }
    }
}

/// The non-secret description of where a sink archives to.
#[derive(Debug)]
pub struct S3Summary {
    pub bucket: String,
    pub endpoint: String,
    pub region: String,
    pub prefix: String,
}

} // verus!
