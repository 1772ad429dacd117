//! Client side of the agent protocol: builds signed requests to a host.
//!
//! The request target is assembled here rather than by an HTTP client's
//! query builder, because the signature covers the exact target the host
//! will see. Query values are percent-encoded conservatively so URL parsing
//! cannot rewrite the string out from under the signature.

use std::time::Duration;
use vstd::prelude::*;
use vstd::utf8::encode_utf8;
use crate::auth::{
    body_digest, body_digest_text, hex_text, new_nonce, request_signature, signature, unix_now,
    unix_time_of,
};
use crate::text::{decimal, decimal_u64, push_char};

verus! {

/// Bytes that go into a URL unencoded: letters, digits and `-_.~`.
pub open spec fn unreserved(b: u8) -> bool {
    (65 <= b <= 90) || (97 <= b <= 122) || (48 <= b <= 57) || b == 45 || b == 95 || b == 46
        || b == 126
}

/// The uppercase hexadecimal digit for a value below 16.
pub open spec fn hex_upper(v: int) -> char {
    if v < 10 {
        (48 + v) as char
    } else {
        (55 + v) as char
    }
}

/// One byte, percent-encoded.
pub open spec fn encode_byte(b: u8) -> Seq<char> {
    if unreserved(b) {
        seq![b as char]
    } else {
        seq!['%', hex_upper((b / 16) as int), hex_upper((b % 16) as int)]
    }
}

/// Percent-encoding of a byte string.
pub open spec fn percent_encoded(bytes: Seq<u8>) -> Seq<char>
    decreases bytes.len(),
{
    if bytes.len() == 0 {
        Seq::empty()
    } else {
        percent_encoded(bytes.drop_last()) + encode_byte(bytes.last())
    }
}

/// One `key=value` query pair, both sides percent-encoded from UTF-8.
pub open spec fn query_pair(key: Seq<char>, value: Seq<char>) -> Seq<char> {
    percent_encoded(encode_utf8(key)) + seq!['='] + percent_encoded(encode_utf8(value))
}

/// Query pairs joined by `&`.
pub open spec fn joined_pairs(query: Seq<(Seq<char>, Seq<char>)>) -> Seq<char>
    decreases query.len(),
{
    if query.len() == 0 {
        Seq::empty()
    } else if query.len() == 1 {
        query_pair(query[0].0, query[0].1)
    } else {
        joined_pairs(query.drop_last()) + seq!['&'] + query_pair(query.last().0, query.last().1)
    }
}

/// The text of query pairs given as `(&str, String)`.
pub open spec fn query_text_of(query: Seq<(&str, String)>) -> Seq<(Seq<char>, Seq<char>)> {
    query.map_values(|p: (&str, String)| (p.0@, p.1@))
}

/// The request target: the path alone without a query, else the path, `?`
/// and the joined pairs.
pub open spec fn request_target(path: Seq<char>, query: Seq<(Seq<char>, Seq<char>)>) -> Seq<char> {
    if query.len() == 0 {
        path
    } else {
        path + seq!['?'] + joined_pairs(query)
    }
}

fn hex_upper_exec(v: u8) -> (c: char)
    requires
        v < 16,
    ensures
        c == hex_upper(v as int),
{
    if v < 10 {
        (48u8 + v) as char
    } else {
        (55u8 + v) as char
    }
}

fn push_encoded(out: &mut String, value: &str)
    ensures
        final(out)@ == old(out)@ + percent_encoded(encode_utf8(value@)),
{
    let bytes = value.as_bytes();
    let mut i: usize = 0;
    while i < bytes.len()
        invariant
            i <= bytes@.len(),
            bytes@ == encode_utf8(value@),
            out@ == old(out)@ + percent_encoded(bytes@.subrange(0, i as int)),
        decreases bytes.len() - i,
    {
        let b = bytes[i];
        let ghost before = out@;
        let unreserved_byte = (65 <= b && b <= 90) || (97 <= b && b <= 122) || (48 <= b && b <= 57)
            || b == 45 || b == 95 || b == 46 || b == 126;
        if unreserved_byte {
            push_char(out, b as char);
        } else {
            push_char(out, '%');
            push_char(out, hex_upper_exec(b / 16));
            push_char(out, hex_upper_exec(b % 16));
        }
        proof {
            let prefix = bytes@.subrange(0, i + 1);
            assert(prefix.drop_last() =~= bytes@.subrange(0, i as int));
            assert(prefix.last() == b);
            assert(out@ =~= before + encode_byte(b));
        }
        i = i + 1;
    }
    proof {
        assert(bytes@.subrange(0, bytes@.len() as int) =~= bytes@);
    }
}

/// Percent-encodes everything outside the unreserved set, so the encoded
/// form survives URL parsing unchanged.
fn encode(value: &str) -> (res: String)
    ensures
        res@ == percent_encoded(encode_utf8(value@)),
{
    let mut out = String::new();
    push_encoded(&mut out, value);
    out
}

/// `path` with the query pairs appended, each side percent-encoded.
pub fn path_with_query(path: &str, query: &[(&str, String)]) -> (res: String)
    ensures
        res@ == request_target(path@, query_text_of(query@)),
{
    let ghost q = query_text_of(query@);
    if query.len() == 0 {
        return path.to_owned();
    }
    let mut out = path.to_owned();
    push_char(&mut out, '?');
    let mut i: usize = 0;
    while i < query.len()
        invariant
            0 < query@.len(),
            i <= query@.len(),
            q == query_text_of(query@),
            out@ == path@ + seq!['?'] + joined_pairs(q.subrange(0, i as int)),
        decreases query.len() - i,
    {
        let ghost before = out@;
        if i > 0 {
            push_char(&mut out, '&');
        }
        let (key, value) = &query[i];
        push_encoded(&mut out, key);
        push_char(&mut out, '=');
        push_encoded(&mut out, value.as_str());
        proof {
            let next = q.subrange(0, i + 1);
            assert(q[i as int] == (key@, value@));
            assert(next.drop_last() =~= q.subrange(0, i as int));
            assert(next.last() == (key@, value@));
            if i == 0 {
                assert(out@ =~= path@ + seq!['?'] + joined_pairs(next));
            } else {
                assert(out@ =~= path@ + seq!['?'] + joined_pairs(next));
            }
        }
        i = i + 1;
    }
    proof {
        assert(q.subrange(0, q.len() as int) =~= q);
    }
    out
}

// ---------------------------------------------------------------------------
// Requests
// ---------------------------------------------------------------------------

/// HTTP methods the agent protocol uses.
#[derive(PartialEq, Eq, Structural, Clone, Copy, Debug)]
pub enum Method {
    Get,
    Post,
}

/// The method's name on the wire.
pub open spec fn method_text(m: Method) -> Seq<char> {
    match m {
        Method::Get => seq!['G', 'E', 'T'],
        Method::Post => seq!['P', 'O', 'S', 'T'],
    }
}

impl Method {
    /// The method's name on the wire.
    pub fn as_str(&self) -> (res: &'static str)
        ensures
            res@ == method_text(*self),
    {
        let res = match self {
            Method::Get => "GET",
            Method::Post => "POST",
        };
        proof {
            reveal_strlit("GET");
            reveal_strlit("POST");
        }
        res
    }
}

/// One request to a host agent, assembled before it is signed.
pub struct AgentRequest<'a> {
    pub address: &'a str,
    pub port: u16,
    pub method: Method,
    pub path: &'a str,
    pub query: Vec<(&'a str, String)>,
    pub body: Vec<u8>,
    pub timeout: Option<Duration>,
}

/// A request ready to go out: where to send it, and its signed headers.
pub struct PreparedRequest {
    pub method: Method,
    /// `http://{address}:{port}{target}`.
    pub url: String,
    /// The value of the timestamp header.
    pub ts: String,
    /// The value of the nonce header.
    pub nonce: String,
    /// The value of the signature header.
    pub signature: String,
    /// A non-empty body is sent as `application/json`; an empty one is not sent.
    pub json_body: bool,
    pub body: Vec<u8>,
    pub timeout: Option<Duration>,
}

/// The URL of a request target on a host agent.
pub open spec fn agent_url(address: Seq<char>, port: u16, target: Seq<char>) -> Seq<char> {
    seq!['h', 't', 't', 'p', ':', '/', '/'] + address + seq![':'] + decimal(port as nat) + target
}

impl<'a> AgentRequest<'a> {
    /// A request with no query, no body and no timeout.
    pub fn new(method: Method, address: &'a str, port: u16, path: &'a str) -> (res: Self)
        ensures
            res.method == method,
            res.address == address,
            res.port == port,
            res.path == path,
            res.query@.len() == 0,
            res.body@.len() == 0,
            res.timeout is None,
    {
        AgentRequest { address, port, method, path, query: Vec::new(), body: Vec::new(), timeout: None }
    }

    /// A `GET` request.
    pub fn get(address: &'a str, port: u16, path: &'a str) -> (res: Self)
        ensures
            res.method == Method::Get,
            res.address == address,
            res.port == port,
            res.path == path,
            res.query@.len() == 0,
            res.body@.len() == 0,
            res.timeout is None,
    {
        Self::new(Method::Get, address, port, path)
    }

    /// A `POST` request.
    pub fn post(address: &'a str, port: u16, path: &'a str) -> (res: Self)
        ensures
            res.method == Method::Post,
            res.address == address,
            res.port == port,
            res.path == path,
            res.query@.len() == 0,
            res.body@.len() == 0,
            res.timeout is None,
    {
        Self::new(Method::Post, address, port, path)
    }

    /// Replaces the query pairs.
    pub fn query(self, query: Vec<(&'a str, String)>) -> (res: Self)
        ensures
            res == (AgentRequest { query, ..self }),
    {
        AgentRequest { query, ..self }
    }

    /// Replaces the body.
    pub fn body(self, body: Vec<u8>) -> (res: Self)
        ensures
            res == (AgentRequest { body, ..self }),
    {
        AgentRequest { body, ..self }
    }

    /// Sets a timeout for the whole request.
    pub fn timeout(self, timeout: Duration) -> (res: Self)
        ensures
            res == (AgentRequest { timeout: Some(timeout), ..self }),
    {
        AgentRequest { timeout: Some(timeout), ..self }
    }

    /// The request target: path and encoded query.
    pub fn target(&self) -> (res: String)
        ensures
            res@ == request_target(self.path@, query_text_of(self.query@)),
    {
        path_with_query(self.path, self.query.as_slice())
    }

    /// Signs the request with `code` for timestamp `ts` and `nonce`.
    pub fn prepare_at(self, code: &str, ts: i64, nonce: String) -> (res: PreparedRequest)
        ensures
            res.method == self.method,
            res.url@ == agent_url(
                self.address@,
                self.port,
                request_target(self.path@, query_text_of(self.query@)),
            ),
            res.ts@ == crate::text::signed_decimal(ts as int),
            res.nonce@ == nonce@,
            res.signature@ == request_signature(
                code@,
                method_text(self.method),
                request_target(self.path@, query_text_of(self.query@)),
                ts,
                nonce@,
                body_digest_text(self.body@),
            ),
            res.json_body == (self.body@.len() > 0),
            res.body@ == self.body@,
            res.timeout == self.timeout,
    {
        let target = self.target();
        let digest = body_digest(self.body.as_slice());
        let sig = signature(
            code,
            self.method.as_str(),
            target.as_str(),
            ts,
            nonce.as_str(),
            digest.as_str(),
        );
        let mut url = String::new();
        url.append("http://");
        url.append(self.address);
        push_char(&mut url, ':');
        let port_text = decimal_u64(self.port as u64);
        url.append(port_text.as_str());
        url.append(target.as_str());
        proof {
            reveal_strlit("http://");
            assert(url@ =~= agent_url(
                self.address@,
                self.port,
                request_target(self.path@, query_text_of(self.query@)),
            ));
        }
        let json_body = self.body.len() > 0;
        PreparedRequest {
            method: self.method,
            url,
            ts: crate::text::decimal_i64(ts),
            nonce,
            signature: sig,
            json_body,
            body: self.body,
            timeout: self.timeout,
        }
    }

    /// Signs the request with `code`, stamped with the host clock and a
    /// fresh nonce.
    pub fn prepare(self, code: &str) -> (res: PreparedRequest)
        ensures
            res.method == self.method,
            res.url@ == agent_url(
                self.address@,
                self.port,
                request_target(self.path@, query_text_of(self.query@)),
            ),
            exists|b: Seq<u8>| b.len() == 16 && res.nonce@ == #[trigger] hex_text(b),
            exists|secs: Option<u64>|
                res.ts@ == crate::text::signed_decimal(#[trigger] unix_time_of(secs) as int)
                    && res.signature@ == request_signature(
                    code@,
                    method_text(self.method),
                    request_target(self.path@, query_text_of(self.query@)),
                    unix_time_of(secs),
                    res.nonce@,
                    body_digest_text(self.body@),
                ),
            res.json_body == (self.body@.len() > 0),
            res.body@ == self.body@,
            res.timeout == self.timeout,
    {
        let ts = unix_now();
        let nonce = new_nonce();
        let ghost secs = choose|secs: Option<u64>| ts == unix_time_of(secs);
        let res = self.prepare_at(code, ts, nonce);
        proof {
            assert(ts == unix_time_of(secs));
        }
        res
    }
}

/// What a caller is told for an HTTP status: success for 2xx, otherwise why
/// the host refused.
pub open spec fn status_outcome(status: u16) -> Result<(), Seq<char>> {
    if 200 <= status <= 299 {
        Ok(())
    } else if status == 401 {
        Err("the host rejected the access code for this computer"@)
    } else if status == 403 {
        Err("the host refused access to that location"@)
    } else if status == 429 {
        Err("too many failed attempts \u{2014} wait a minute and try again"@)
    } else {
        Err("the host returned HTTP "@ + decimal(status as nat))
    }
}

/// Maps a response status to success or a message, so a caller cannot
/// mistake a refusal for success.
pub fn check_status(status: u16) -> (res: Result<(), String>)
    ensures
        match (res, status_outcome(status)) {
            (Ok(()), Ok(())) => true,
            (Err(m), Err(t)) => m@ == t,
            _ => false,
        },
{
    if 200 <= status && status <= 299 {
        return Ok(());
    }
    let msg = if status == 401 {
        "the host rejected the access code for this computer".to_owned()
    } else if status == 403 {
        "the host refused access to that location".to_owned()
    } else if status == 429 {
        "too many failed attempts \u{2014} wait a minute and try again".to_owned()
    } else {
        let mut m = "the host returned HTTP ".to_owned();
        let code = decimal_u64(status as u64);
        m.append(code.as_str());
        m
    };
    Err(msg)
}

// ---------------------------------------------------------------------------
// Laws
// ---------------------------------------------------------------------------

/// Characters URL parsing leaves alone inside a query value: ASCII letters
/// and digits, `-`, `_`, `.`, `~`, and the `%` of an escape.
pub open spec fn url_safe(c: char) -> bool {
    ('A' <= c && c <= 'Z') || ('a' <= c && c <= 'z') || ('0' <= c && c <= '9') || c == '-' || c
        == '_' || c == '.' || c == '~' || c == '%'
}

/// Percent-encoding leaves nothing a URL parser could rewrite: every
/// character of an encoded value is a letter, a digit, `-_.~` or `%`, so no
/// separator (`&`, `=`, `?`, `#`, `/`) or space survives into the signed
/// target.
pub proof fn percent_encoding_is_url_safe(bytes: Seq<u8>)
    ensures
        forall|i: int| 0 <= i < percent_encoded(bytes).len() ==> url_safe(#[trigger] percent_encoded(bytes)[i]),
    decreases bytes.len(),
{
    if bytes.len() > 0 {
        percent_encoding_is_url_safe(bytes.drop_last());
        let head = percent_encoded(bytes.drop_last());
        let tail = encode_byte(bytes.last());
        let b = bytes.last();
        assert forall|k: int| 0 <= k < tail.len() implies url_safe(#[trigger] tail[k]) by {
            if !unreserved(b) && k > 0 {
                let v: int = if k == 1 { (b / 16) as int } else { (b % 16) as int };
                assert(0 <= v < 16);
            }
        }
        assert forall|i: int| 0 <= i < percent_encoded(bytes).len() implies url_safe(
            #[trigger] percent_encoded(bytes)[i],
        ) by {
            if i < head.len() {
                assert(percent_encoded(bytes)[i] == head[i]);
            } else {
                assert(percent_encoded(bytes)[i] == tail[i - head.len()]);
            }
        }
    }
}

} // verus!
