//! The swarm/1 protocol's client side: one request form, one balanced
//! response form. Sending and receiving is the caller's part; reading
//! values out of a response is here.

use vstd::prelude::*;
use crate::scheduler::sexpr::{deeps, field_spec, lemma_deeps, text_of, Sexp, SexpV};

verus! {

/// Where a swarm node listens, and how long to wait for its answer.
#[derive(Debug)]
pub struct Client {
    addr: String,
    pub timeout_secs: u64,
}

impl Client {
    /// A client for the node at `addr`, waiting up to 20 seconds.
    pub fn new(addr: String) -> (c: Client)
        ensures
            c.addr_spec() == addr@,
            c.timeout_spec() == 20,
    {
        Client { addr, timeout_secs: 20 }
    }

    pub closed spec fn addr_spec(&self) -> Seq<char> {
        self.addr@
    }

    pub closed spec fn timeout_spec(&self) -> u64 {
        self.timeout_secs
    }

    /// The address the node listens on.
    pub fn addr(&self) -> (r: &str)
        ensures
            r@ == self.addr_spec(),
    {
        self.addr.as_str()
    }
}

/// The first value of the `(key value ...)` entry of a response.
pub open spec fn field_first(v: SexpV, key: Seq<char>) -> Option<SexpV> {
    match field_spec(v, key) {
        Some(rest) => if rest.len() > 0 {
            Some(rest[0])
        } else {
            None
        },
        None => None,
    }
}

/// The first value of the `(key value ...)` entry of a response form.
pub fn field<'a>(resp: &'a Sexp, key: &str) -> (r: Option<&'a Sexp>)
    ensures
        r matches Some(v) ==> field_first(resp.deep(), key@) == Some(v.deep()),
        r is None ==> field_first(resp.deep(), key@) is None,
{
    match resp.field(key) {
        Some(rest) => {
            proof {
                lemma_deeps(rest@);
            }
            if rest.len() > 0 {
                Some(&rest[0])
            } else {
                None
            }
        },
        None => None,
    }
}

/// The canonical text of any part of a response.
pub fn text(v: &Sexp) -> (r: String)
    ensures
        r@ == text_of(v.deep()),
{
    v.to_text()
}

} // verus!
