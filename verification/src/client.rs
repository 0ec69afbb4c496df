//! The request-building half of the remote proving-service client.
//!
//! The client's configuration is an endpoint base URL (stored without
//! trailing slashes) and an optional bearer token (an absent token is stored
//! as the empty string). Everything the client computes — endpoint URLs,
//! query parameters, the health verdict — is here with exact contracts; the
//! HTTP transport that carries them lives outside the library.
use vstd::prelude::*;

use crate::schema::{GetVkRequest, ProveRequest, QueryTaskRequest};
use crate::text::{dec_of, str_eq, u64_dec};

verus! {

pub const DEFAULT_PROVING_SERVICE_URL: &'static str =
    "http://scroll-proving-service.gevulot.com:3000";

/// Length of the longest prefix of `s` that does not end in '/'.
pub open spec fn trimmed_len(s: Seq<char>) -> int
    decreases s.len(),
{
    if s.len() > 0 && s.last() == '/' {
        trimmed_len(s.drop_last())
    } else {
        s.len() as int
    }
}

/// `s` with every trailing '/' removed.
pub open spec fn trim_trailing_slashes(s: Seq<char>) -> Seq<char> {
    s.subrange(0, trimmed_len(s))
}

/// Remote proving-service client configuration: base URL and bearer token.
pub struct Client {
    pub proving_service_url: String,
    pub auth_token: String,
}

impl Client {
    /// Builds a client from a base URL and an optional bearer token. The URL
    /// is stored without trailing slashes so endpoint paths concatenate
    /// consistently; an absent token is stored as the empty string.
    pub fn new(proving_service_url: String, auth_token: Option<String>) -> (r: Client)
        ensures
            r.proving_service_url@ == trim_trailing_slashes(proving_service_url@),
            r.auth_token@ == (match auth_token {
                Some(t) => t@,
                None => Seq::<char>::empty(),
            }),
    {
        let s = proving_service_url.as_str();
        let mut end = s.unicode_len();
        proof {
            assert(s@.subrange(0, s@.len() as int) =~= s@);
        }
        while end > 0 && s.get_char(end - 1) == '/'
            invariant
                end <= s@.len(),
                trimmed_len(s@) == trimmed_len(s@.subrange(0, end as int)),
            decreases end,
        {
            proof {
                let cur = s@.subrange(0, end as int);
                assert(cur.last() == s@[end - 1]);
                assert(cur.drop_last() =~= s@.subrange(0, end - 1));
            }
            end = end - 1;
        }
        proof {
            let cur = s@.subrange(0, end as int);
            if end > 0 {
                assert(cur.last() == s@[end - 1]);
            }
            assert(trimmed_len(cur) == cur.len());
        }
        let url = s.substring_char(0, end).to_owned();
        let token = match auth_token {
            Some(t) => t,
            None => String::new(),
        };
        Client { proving_service_url: url, auth_token: token }
    }

    /// The health-probe endpoint.
    pub fn health_endpoint(&self) -> (r: String)
        ensures
            r@ == self.proving_service_url@ + "/health"@,
    {
        let mut r = self.proving_service_url.clone();
        r.append("/health");
        r
    }

    /// The verification-key endpoint.
    pub fn get_vk_endpoint(&self) -> (r: String)
        ensures
            r@ == self.proving_service_url@ + "/get_vk"@,
    {
        let mut r = self.proving_service_url.clone();
        r.append("/get_vk");
        r
    }

    /// The task-submission endpoint.
    pub fn prove_endpoint(&self) -> (r: String)
        ensures
            r@ == self.proving_service_url@ + "/prove_task"@,
    {
        let mut r = self.proving_service_url.clone();
        r.append("/prove_task");
        r
    }

    /// The task-query endpoint.
    pub fn query_task_endpoint(&self) -> (r: String)
        ensures
            r@ == self.proving_service_url@ + "/query_task"@,
    {
        let mut r = self.proving_service_url.clone();
        r.append("/query_task");
        r
    }

    /// Query parameters of a verification-key request: the circuit type as
    /// its wire integer, and the circuit version verbatim.
    pub fn get_vk_query(req: &GetVkRequest) -> (r: Vec<(String, String)>)
        ensures
            r@.len() == 2,
            r@[0].0@ == "circuit_type"@,
            r@[0].1@ == dec_of(req.circuit_type.spec_to_u8() as nat),
            r@[1].0@ == "circuit_version"@,
            r@[1].1@ == req.circuit_version@,
    {
        let mut r: Vec<(String, String)> = Vec::new();
        r.push(("circuit_type".to_owned(), u64_dec(req.circuit_type.to_u8() as u64)));
        r.push(("circuit_version".to_owned(), req.circuit_version.clone()));
        r
    }

    /// Query parameters of a task query: the task identifier verbatim.
    pub fn query_task_query(req: &QueryTaskRequest) -> (r: Vec<(String, String)>)
        ensures
            r@.len() == 1,
            r@[0].0@ == "task_id"@,
            r@[0].1@ == req.task_id@,
    {
        let mut r: Vec<(String, String)> = Vec::new();
        r.push(("task_id".to_owned(), req.task_id.clone()));
        r
    }

    /// The Authorization header value of a mutating call: the bearer scheme
    /// with the stored token (possibly empty, which the service rejects for
    /// mutating calls).
    pub fn authorization_value(&self) -> (r: String)
        ensures
            r@ == "Bearer "@ + self.auth_token@,
    {
        let mut r = String::new();
        r.append("Bearer ");
        r.append(self.auth_token.as_str());
        proof {
            assert(r@ =~= "Bearer "@ + self.auth_token@);
        }
        r
    }

    /// Whether a health-probe response body reports a healthy service: true
    /// exactly when the raw body is the literal text "OK".
    pub fn health_ok(body: &str) -> (r: bool)
        ensures
            r == (body@ == "OK"@),
    {
        str_eq(body, "OK")
    }

    /// Reports this backend as non-parallelizable. The flag follows the
    /// caller convention that a backend answering true here must not be
    /// fanned out over several workers; it is not a statement about where
    /// the work runs.
    pub fn is_local(&self) -> (r: bool)
        ensures
            r == true,
    {
        true
    }
}

} // verus!
