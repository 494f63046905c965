//! The wire-side data model and logic: the connection descriptor a script
//! declares, the byte-exact HTTP/1.1 serialization of a request, and the
//! batch orchestrator that sequences requests and tallies assertion results.

use vstd::prelude::*;

verus! {

/// The connection a script declares: where to connect and whether to wrap the
/// stream in TLS. The transport itself lives outside the library.
#[derive(Debug)]
pub struct Connection {
    pub host: Vec<u8>,
    pub port: u16,
    pub is_safe: bool,
}

/// The spec-level shape of a [`Connection`].
pub struct ConnectionV {
    pub host: Seq<u8>,
    pub port: u16,
    pub is_safe: bool,
}

impl View for Connection {
    type V = ConnectionV;

    open spec fn view(&self) -> ConnectionV {
        ConnectionV { host: self.host@, port: self.port, is_safe: self.is_safe }
    }
}

} // verus!

use crate::bytes::{dec_str_spec, u64_to_dec, bytes_eq, m_crlf_seq};
use crate::errors::{HttpError, HttpErrorV};
use crate::http::{Request, RequestV, Response, ResponseV};
use crate::markers::{crlf, h_accept, h_accept_encoding, h_connection, h_content_length,
    h_content_type, h_host, h_user_agent, http_suffix, kw_post, kw_put, m_h_accept,
    m_h_accept_encoding, m_h_connection, m_h_content_length, m_h_content_type, m_h_host,
    m_h_user_agent, m_http_suffix, m_kw_post, m_kw_put};
use crate::test_bed::{test_case, test_case_spec, TestCase, TestCaseV};

verus! {

/// The HTTP/1.1 head of a request, byte for byte: the request line, the fixed
/// headers in their stable order, and the blank line.
pub open spec fn request_head_spec(host: Seq<u8>, req: RequestV) -> Seq<u8> {
    req.method + seq![(' ' as u8)] + req.url + m_http_suffix() + m_h_host() + host + m_crlf_seq()
        + m_h_user_agent() + m_h_content_type() + req.content_type + m_crlf_seq()
        + m_h_content_length() + dec_str_spec(req.body.len()) + m_crlf_seq() + m_h_accept()
        + m_h_accept_encoding() + m_h_connection() + m_crlf_seq()
}

/// Everything written to the wire for one request: the head, then the body
/// bytes for `POST` and `PUT` alone.
pub open spec fn wire_bytes_spec(host: Seq<u8>, req: RequestV) -> Seq<u8> {
    if req.method == m_kw_post() || req.method == m_kw_put() {
        request_head_spec(host, req) + req.body
    } else {
        request_head_spec(host, req)
    }
}

/// The serialization outcome: the wire bytes, or the empty-body error that
/// `POST` and `PUT` raise, naming the method.
pub open spec fn serialize_request_spec(host: Seq<u8>, req: RequestV) -> Result<
    Seq<u8>,
    HttpErrorV,
> {
    if (req.method == m_kw_post() || req.method == m_kw_put()) && req.body.len() == 0 {
        Err(HttpErrorV::EmptyBody(req.method))
    } else {
        Ok(wire_bytes_spec(host, req))
    }
}

/// Serialize a request to the exact HTTP/1.1 bytes to write: request line,
/// fixed headers in stable order, blank line, and the body on `POST`/`PUT`.
/// An empty body on those methods is refused by name.
pub fn serialize_request(host: &[u8], request: &Request) -> (r: Result<Vec<u8>, HttpError>)
    ensures
        match r {
            Ok(b) => serialize_request_spec(host@, request@) == Ok::<Seq<u8>, HttpErrorV>(b@),
            Err(e) => serialize_request_spec(host@, request@) == Err::<Seq<u8>, HttpErrorV>(e@),
        },
{
    let is_post = bytes_eq(request.method.as_slice(), kw_post());
    let is_put = bytes_eq(request.method.as_slice(), kw_put());
    if (is_post || is_put) && request.body.len() == 0 {
        return Err(HttpError::EmptyBody(vstd::slice::slice_to_vec(request.method.as_slice())));
    }
    let mut b: Vec<u8> = Vec::new();
    b.extend_from_slice(request.method.as_slice());
    b.push(' ' as u8);
    b.extend_from_slice(request.url.as_slice());
    b.extend_from_slice(http_suffix());
    b.extend_from_slice(h_host());
    b.extend_from_slice(host);
    b.extend_from_slice(crlf());
    b.extend_from_slice(h_user_agent());
    b.extend_from_slice(h_content_type());
    b.extend_from_slice(request.content_type.as_slice());
    b.extend_from_slice(crlf());
    b.extend_from_slice(h_content_length());
    let len_dec = u64_to_dec(request.body.len() as u64);
    b.extend_from_slice(len_dec.as_slice());
    b.extend_from_slice(crlf());
    b.extend_from_slice(h_accept());
    b.extend_from_slice(h_accept_encoding());
    b.extend_from_slice(h_connection());
    b.extend_from_slice(crlf());
    proof {
        assert(b@ =~= request_head_spec(host@, request@));
    }
    if is_post || is_put {
        b.extend_from_slice(request.body.as_slice());
        proof {
            assert(b@ =~= wire_bytes_spec(host@, request@));
        }
    }
    Ok(b)
}

/// What the orchestrator asks for next: send the request at an index, or
/// nothing more.
pub enum BatchStep {
    Send(usize),
    Done,
}

/// The batch orchestrator's state: the ordered requests, how many are done,
/// and whether a failure has stopped the run.
pub struct Batch {
    pub requests: Vec<Request>,
    pub next: usize,
    pub stopped: bool,
}

/// A batch still owes a send exactly when nothing failed and requests remain.
pub open spec fn batch_has_next(b: Batch) -> bool {
    !b.stopped && b.next < b.requests@.len()
}

impl Batch {
    /// A fresh batch over the parsed requests, nothing sent yet.
    pub fn new(requests: Vec<Request>) -> (b: Batch)
        ensures
            b.requests == requests,
            b.next == 0,
            !b.stopped,
    {
        Batch { requests, next: 0, stopped: false }
    }

    /// What to do next: send the request at `next`, or stop.
    pub fn poll(&self) -> (r: BatchStep)
        ensures
            batch_has_next(*self) ==> r == BatchStep::Send(self.next),
            !batch_has_next(*self) ==> r == BatchStep::Done,
    {
        if !self.stopped && self.next < self.requests.len() {
            BatchStep::Send(self.next)
        } else {
            BatchStep::Done
        }
    }

    /// The request to send for a step the batch handed out.
    pub fn request_at(&self, i: usize) -> (r: &Request)
        requires
            i < self.requests@.len(),
        ensures
            *r == self.requests@[i as int],
    {
        &self.requests[i]
    }

    /// One request/response cycle finished: move to the next request.
    pub fn advance(&mut self)
        requires
            old(self).next < old(self).requests@.len(),
        ensures
            final(self).requests == old(self).requests,
            final(self).next == old(self).next + 1,
            final(self).stopped == old(self).stopped,
    {
        // the runtime length bounds `next`, so the step cannot overflow
        let n: usize = self.requests.len();
        self.next = self.next + 1;
    }

    /// A send or receive failed: the whole batch stops, and later requests are
    /// never attempted.
    pub fn on_failure(&mut self)
        ensures
            final(self).requests == old(self).requests,
            final(self).next == old(self).next,
            final(self).stopped,
    {
        self.stopped = true;
    }
}

/// Law: a batch that has recorded a failure owes no further send — polling a
/// stopped batch is `Done`, whatever requests remain, so the requests after
/// the failed one are never attempted.
pub proof fn lemma_stopped_batch_sends_nothing(b: Batch)
    requires
        b.stopped,
    ensures
        !batch_has_next(b),
{
}

/// Evaluate every case of a request against the response, in declared order;
/// entry `k` of the result says whether case `k` passed.
pub fn evaluate_cases(response: &Response, cases: &Vec<TestCase>) -> (r: Vec<bool>)
    ensures
        r@.len() == cases@.len(),
        forall|k: int|
            0 <= k < cases@.len() ==> r@[k] == test_case_spec(response@, #[trigger] cases@[k]@),
{
    let mut r: Vec<bool> = Vec::new();
    let mut i: usize = 0;
    while i < cases.len()
        invariant
            0 <= i <= cases@.len(),
            r@.len() == i,
            forall|k: int|
                0 <= k < i ==> r@[k] == test_case_spec(response@, #[trigger] cases@[k]@),
        decreases cases.len() - i,
    {
        r.push(test_case(response, &cases[i]));
        i = i + 1;
    }
    r
}

/// Tally a run of outcomes: how many passed and how many failed.
pub fn tally(outcomes: &Vec<bool>) -> (r: (usize, usize))
    ensures
        r.0 == count_true_spec(outcomes@),
        r.0 + r.1 == outcomes@.len(),
{
    let mut passed: usize = 0;
    let mut i: usize = 0;
    while i < outcomes.len()
        invariant
            0 <= i <= outcomes@.len(),
            passed == count_true_spec(outcomes@.subrange(0, i as int)),
            passed <= i,
        decreases outcomes.len() - i,
    {
        proof {
            assert(outcomes@.subrange(0, i + 1).drop_last() =~= outcomes@.subrange(0, i as int));
        }
        if outcomes[i] {
            passed = passed + 1;
        }
        i = i + 1;
    }
    proof {
        assert(outcomes@.subrange(0, outcomes@.len() as int) =~= outcomes@);
    }
    (passed, outcomes.len() - passed)
}

/// How many entries are true.
pub open spec fn count_true_spec(s: Seq<bool>) -> nat
    decreases s.len(),
{
    if s.len() == 0 {
        0
    } else {
        count_true_spec(s.drop_last()) + if s.last() {
            1nat
        } else {
            0nat
        }
    }
}

} // verus!

use crate::bytes::{find_spec, find_ws_spec, first_token_spec, is_ws, lemma_find_spec_at,
    lemma_find_ws_at, lemma_trim_start_at_pub, lines_spec, second_token_spec, strip_cr_spec,
    trim_start_spec};

verus! {

/// No byte of `s` is ASCII whitespace.
pub open spec fn no_ws(s: Seq<u8>) -> bool {
    forall|i: int| 0 <= i < s.len() ==> !is_ws(#[trigger] s[i])
}

/// Law (round trip): the request line of a serialized request reads back as
/// it was written. For any non-empty method and url without whitespace, the
/// first line of the head has the method as its first whitespace-separated
/// token and the url as its second — what a server echoing the request line
/// reports matches the request descriptor.
pub proof fn lemma_request_line_round_trip(host: Seq<u8>, req: RequestV)
    requires
        req.method.len() > 0,
        req.url.len() > 0,
        no_ws(req.method),
        no_ws(req.url),
    ensures
        lines_spec(request_head_spec(host, req)).len() > 0,
        first_token_spec(lines_spec(request_head_spec(host, req))[0]) == req.method,
        second_token_spec(lines_spec(request_head_spec(host, req))[0]) == Some(req.url),
{
    let head = request_head_spec(host, req);
    let m = req.method;
    let u = req.url;
    let a = m + seq![(' ' as u8)] + u + m_http_suffix();
    let nl = m.len() + 1 + u.len() + 10;
    assert(head =~= a + (m_h_host() + host + m_crlf_seq() + m_h_user_agent() + m_h_content_type()
        + req.content_type + m_crlf_seq() + m_h_content_length() + dec_str_spec(req.body.len())
        + m_crlf_seq() + m_h_accept() + m_h_accept_encoding() + m_h_connection() + m_crlf_seq()));
    assert(head[nl as int] == ('\n' as u8)) by {
        assert(head[nl as int] == a[nl as int]);
        assert(a[nl as int] == m_http_suffix()[10]);
    }
    assert forall|k: int| 0 <= k < nl implies head[k] != ('\n' as u8) by {
        assert(head[k] == a[k]);
        if k < m.len() {
            assert(a[k] == m[k]);
            assert(!is_ws(m[k]));
        } else if k == m.len() {
            assert(a[k] == (' ' as u8));
        } else if k < m.len() + 1 + u.len() {
            assert(a[k] == u[k - m.len() - 1]);
            assert(!is_ws(u[k - m.len() - 1]));
        } else {
            assert(a[k] == m_http_suffix()[k - m.len() - 1 - u.len()]);
        }
    }
    lemma_find_spec_at(head, '\n' as u8, nl as int);
    assert(0 <= find_spec(head, '\n' as u8) < head.len());
    let raw1 = head.subrange(0, nl as int);
    let line1 = strip_cr_spec(raw1);
    assert(lines_spec(head)[0] == line1);
    assert(raw1.last() == ('\r' as u8)) by {
        assert(raw1[nl - 1] == a[nl - 1]);
        assert(a[nl - 1] == m_http_suffix()[9]);
    }
    let ver = m_http_suffix().subrange(0, 9);
    let l1 = m + seq![(' ' as u8)] + u + ver;
    assert(line1 =~= l1) by {
        assert forall|k: int| 0 <= k < nl - 1 implies raw1.drop_last()[k] == l1[k] by {
            assert(raw1[k] == a[k]);
        }
    }
    // first token: the method
    assert(!is_ws(l1[0]));
    lemma_trim_start_at_pub(l1, 0);
    assert(trim_start_spec(l1) =~= l1);
    assert forall|k: int| 0 <= k < m.len() implies !is_ws(l1[k]) by {
        assert(l1[k] == m[k]);
    }
    assert(is_ws(l1[m.len() as int]));
    lemma_find_ws_at(l1, m.len() as int);
    assert(first_token_spec(l1) =~= m);
    // second token: the url
    let rest = l1.subrange(m.len() as int, l1.len() as int);
    assert(trim_start_spec(l1).subrange(
        find_ws_spec(trim_start_spec(l1)),
        trim_start_spec(l1).len() as int,
    ) =~= rest);
    assert(is_ws(rest[0]));
    assert(!is_ws(rest[1])) by {
        assert(rest[1] == u[0]);
    }
    lemma_trim_start_at_pub(rest, 1);
    let t2 = rest.subrange(1, rest.len() as int);
    assert(trim_start_spec(rest) == t2);
    assert forall|k: int| 0 <= k < u.len() implies !is_ws(t2[k]) by {
        assert(t2[k] == l1[m.len() + 1 + k]);
        assert(l1[m.len() + 1 + k] == u[k]);
    }
    assert(is_ws(t2[u.len() as int])) by {
        assert(t2[u.len() as int] == ver[0]);
    }
    lemma_find_ws_at(t2, u.len() as int);
    assert(t2.subrange(0, u.len() as int) =~= u);
}

} // verus!
