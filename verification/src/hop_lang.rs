//! The hop-script parser: a cleaning pass that strips comments and blank
//! lines, a connection pass that reads the single `<connect>` block, and a
//! request pass that turns each `<query>` block into a request descriptor with
//! its body and assertions.

use vstd::prelude::*;

use crate::bytes::{count_matches, count_spec, find_spec, lemma_find_spec, lines, lines_spec,
    split_once, split_once_spec, to_lower, to_lower_spec, to_upper, to_upper_spec, trim, trim_spec,
    parse_u64_dec, parse_u64_spec};
use crate::errors::{ScriptError, ScriptErrorV};
use crate::http::{Request, RequestV};
use crate::markers::{connect_close, connect_open, kw_host, kw_port, kw_unsafe, m_connect_close,
    m_connect_open, m_kw_host, m_kw_port, m_kw_unsafe};
use crate::network::{Connection, ConnectionV};

verus! {

/// A line survives cleaning when it is non-empty and, after trimming, does
/// not begin with `#`.
pub open spec fn clean_line_kept(l: Seq<u8>) -> bool {
    l.len() > 0 && !(trim_spec(l).len() > 0 && trim_spec(l)[0] == ('#' as u8))
}

/// The kept lines, each re-terminated with a newline.
pub open spec fn clean_lines_spec(ls: Seq<Seq<u8>>) -> Seq<u8>
    decreases ls.len(),
{
    if ls.len() == 0 {
        Seq::empty()
    } else if clean_line_kept(ls[0]) {
        ls[0] + seq![('\n' as u8)] + clean_lines_spec(ls.drop_first())
    } else {
        clean_lines_spec(ls.drop_first())
    }
}

/// The script with comment lines (leading `#` after whitespace) and empty
/// lines removed; every other line is kept verbatim with a trailing newline.
pub open spec fn clean_script_spec(s: Seq<u8>) -> Seq<u8> {
    clean_lines_spec(lines_spec(s))
}

/// Strip comment and blank lines from a script, keeping all other lines
/// verbatim, each with a trailing newline re-inserted.
pub fn clean_script(script: &[u8]) -> (r: Vec<u8>)
    ensures
        r@ == clean_script_spec(script@),
{
    let ls = lines(script);
    let ghost lsv = lines_spec(script@);
    let mut out: Vec<u8> = Vec::new();
    let mut i: usize = 0;
    proof {
        assert(lsv.subrange(0, lsv.len() as int) =~~= lsv);
    }
    while i < ls.len()
        invariant
            0 <= i <= ls@.len(),
            ls.deep_view() == lsv,
            lsv == lines_spec(script@),
            clean_script_spec(script@) == out@ + clean_lines_spec(
                lsv.subrange(i as int, lsv.len() as int),
            ),
        decreases ls@.len() - i,
    {
        let ghost tail = lsv.subrange(i as int, lsv.len() as int);
        proof {
            assert(tail[0] == lsv[i as int]);
            assert(tail.drop_first() =~~= lsv.subrange(i + 1, lsv.len() as int));
            assert(ls@[i as int]@ == lsv[i as int]);
        }
        let line = &ls[i];
        let t = trim(line.as_slice());
        let kept = line.len() > 0 && !(t.len() > 0 && t[0] == ('#' as u8));
        if kept {
            out.extend_from_slice(line.as_slice());
            out.push('\n' as u8);
        }
        i = i + 1;
    }
    proof {
        assert(clean_lines_spec(lsv.subrange(i as int, lsv.len() as int)) =~= Seq::<u8>::empty());
        assert(out@ =~= clean_script_spec(script@));
    }
    out
}

/// The connection descriptor before any block line is read: port 443, secure.
pub open spec fn initial_connection() -> ConnectionV {
    ConnectionV { host: Seq::empty(), port: 443, is_safe: true }
}

/// The connection pass's running state: the descriptor so far, and whether an
/// explicit `port=` line has set the port — an explicit port always wins, so
/// a later `unsafe` line may only drop the port to 80 while it is still the
/// default.
pub struct ConnParse {
    pub conn: ConnectionV,
    pub port_set: bool,
}

/// The connection pass before any block line is read.
pub open spec fn initial_conn_parse() -> ConnParse {
    ConnParse { conn: initial_connection(), port_set: false }
}

/// What one line inside the connect block does to the state: `key=value` sets
/// `host` or `port` (the explicit port is final); the bare token `unsafe`
/// switches to plaintext and, while no explicit `port=` has been given, drops
/// the port to its plaintext default 80; a blank line does nothing; anything
/// else is an error naming the offending token.
pub open spec fn conn_line_step(acc: ConnParse, line: Seq<u8>) -> Result<ConnParse, ScriptErrorV> {
    let t = trim_spec(line);
    if t.len() == 0 {
        Ok(acc)
    } else {
        match split_once_spec(t, '=' as u8) {
            Some(kv) => {
                let kt = trim_spec(kv.0);
                let vt = trim_spec(kv.1);
                if kt == m_kw_host() {
                    Ok(
                        ConnParse {
                            conn: ConnectionV {
                                host: vt,
                                port: acc.conn.port,
                                is_safe: acc.conn.is_safe,
                            },
                            port_set: acc.port_set,
                        },
                    )
                } else if kt == m_kw_port() {
                    match parse_u64_spec(vt) {
                        Some(v) => if v <= 65535 {
                            Ok(
                                ConnParse {
                                    conn: ConnectionV {
                                        host: acc.conn.host,
                                        port: v as u16,
                                        is_safe: acc.conn.is_safe,
                                    },
                                    port_set: true,
                                },
                            )
                        } else {
                            Err(ScriptErrorV::InvalidPort(vt))
                        },
                        None => Err(ScriptErrorV::InvalidPort(vt)),
                    }
                } else {
                    Err(ScriptErrorV::InvalidParameter(kv.0))
                }
            },
            None => {
                if t == m_kw_unsafe() {
                    Ok(
                        ConnParse {
                            conn: ConnectionV {
                                host: acc.conn.host,
                                port: if acc.port_set {
                                    acc.conn.port
                                } else {
                                    80
                                },
                                is_safe: false,
                            },
                            port_set: acc.port_set,
                        },
                    )
                } else {
                    Err(ScriptErrorV::InvalidOption(t))
                }
            },
        }
    }
}

/// The connect-block lines folded over [`conn_line_step`], stopping at the
/// first line that trims to `</connect>`; lines beyond it are ignored.
pub open spec fn conn_fold(acc: ConnParse, ls: Seq<Seq<u8>>) -> Result<ConnParse, ScriptErrorV>
    decreases ls.len(),
{
    if ls.len() == 0 {
        Ok(acc)
    } else if trim_spec(ls[0]) == m_connect_close() {
        Ok(acc)
    } else {
        match conn_line_step(acc, ls[0]) {
            Ok(a) => conn_fold(a, ls.drop_first()),
            Err(e) => Err(e),
        }
    }
}

/// What the connection pass makes of a whole script: an error if `<connect>`
/// occurs more than once; an error if the first line is not exactly
/// `<connect>` (the whole-file search is not supported); otherwise the fold of
/// the block lines, with an empty host a terminal error.
pub open spec fn connection_header_spec(s: Seq<u8>) -> Result<ConnectionV, ScriptErrorV> {
    if count_spec(s, m_connect_open()) > 1 {
        Err(ScriptErrorV::MultipleConnectHeaders)
    } else {
        let ls = lines_spec(s);
        if ls.len() == 0 || ls[0] != m_connect_open() {
            Err(ScriptErrorV::MissingConnectHeader)
        } else {
            match conn_fold(initial_conn_parse(), ls.drop_first()) {
                Ok(a) => if a.conn.host.len() == 0 {
                    Err(ScriptErrorV::EmptyHost)
                } else {
                    Ok(a.conn)
                },
                Err(e) => Err(e),
            }
        }
    }
}

/// The whole-file search for a connection header is a declared but
/// unresolved capability: it fails explicitly rather than guess.
pub fn find_connection_header(script: &[u8]) -> (r: Result<Connection, ScriptError>)
    ensures
        r is Err,
        r matches Err(e) ==> e@ == ScriptErrorV::MissingConnectHeader,
{
    Err(ScriptError::MissingConnectHeader)
}

/// Read the single `<connect>` block at the top of the script into a
/// connection descriptor.
pub fn fetch_connection_header(script: &[u8]) -> (r: Result<Connection, ScriptError>)
    ensures
        match r {
            Ok(c) => connection_header_spec(script@) == Ok::<ConnectionV, ScriptErrorV>(c@),
            Err(e) => connection_header_spec(script@) == Err::<ConnectionV, ScriptErrorV>(e@),
        },
{
    if count_matches(script, connect_open()) > 1 {
        return Err(ScriptError::MultipleConnectHeaders);
    }
    let ls = lines(script);
    let ghost lsv = lines_spec(script@);
    if ls.len() == 0 {
        return find_connection_header(script);
    }
    proof {
        assert(ls@[0]@ == lsv[0]);
    }
    if !crate::bytes::bytes_eq(ls[0].as_slice(), connect_open()) {
        return find_connection_header(script);
    }
    let mut conn = Connection { host: Vec::new(), port: 443, is_safe: true };
    let mut port_set = false;
    let mut i: usize = 1;
    proof {
        assert(lsv.subrange(1, lsv.len() as int) =~~= lsv.drop_first());
        assert(ConnParse { conn: conn@, port_set } == initial_conn_parse());
    }
    while i < ls.len()
        invariant
            1 <= i <= ls@.len(),
            ls.deep_view() == lsv,
            lsv == lines_spec(script@),
            count_spec(script@, m_connect_open()) <= 1,
            lsv.len() > 0,
            lsv[0] == m_connect_open(),
            conn_fold(initial_conn_parse(), lsv.drop_first()) == conn_fold(
                ConnParse { conn: conn@, port_set },
                lsv.subrange(i as int, lsv.len() as int),
            ),
        ensures
            conn_fold(initial_conn_parse(), lsv.drop_first()) == Ok::<ConnParse, ScriptErrorV>(
                ConnParse { conn: conn@, port_set },
            ),
        decreases ls@.len() - i,
    {
        let ghost tail = lsv.subrange(i as int, lsv.len() as int);
        let ghost acc0 = ConnParse { conn: conn@, port_set };
        proof {
            assert(tail[0] == lsv[i as int]);
            assert(tail.drop_first() =~~= lsv.subrange(i + 1, lsv.len() as int));
            assert(ls@[i as int]@ == lsv[i as int]);
        }
        let line = &ls[i];
        let t = trim(line.as_slice());
        if crate::bytes::bytes_eq(t, connect_close()) {
            proof {
                assert(conn_fold(acc0, tail) == Ok::<ConnParse, ScriptErrorV>(acc0));
            }
            break;
        }
        if t.len() == 0 {
            i = i + 1;
            continue;
        }
        match split_once(t, '=' as u8) {
            Some((k, v)) => {
                let kt = trim(k);
                let vt = trim(v);
                if crate::bytes::bytes_eq(kt, kw_host()) {
                    conn.host = vstd::slice::slice_to_vec(vt);
                } else if crate::bytes::bytes_eq(kt, kw_port()) {
                    match parse_u64_dec(vt) {
                        Some(v64) => {
                            if v64 <= 65535 {
                                conn.port = v64 as u16;
                                port_set = true;
                            } else {
                                return Err(ScriptError::InvalidPort(vstd::slice::slice_to_vec(vt)));
                            }
                        },
                        None => {
                            return Err(ScriptError::InvalidPort(vstd::slice::slice_to_vec(vt)));
                        },
                    }
                } else {
                    return Err(ScriptError::InvalidParameter(vstd::slice::slice_to_vec(k)));
                }
            },
            None => {
                if crate::bytes::bytes_eq(t, kw_unsafe()) {
                    if !port_set {
                        conn.port = 80;
                    }
                    conn.is_safe = false;
                } else {
                    return Err(ScriptError::InvalidOption(vstd::slice::slice_to_vec(t)));
                }
            },
        }
        proof {
            assert(conn_line_step(acc0, tail[0]) == Ok::<ConnParse, ScriptErrorV>(
                ConnParse { conn: conn@, port_set },
            ));
        }
        i = i + 1;
    }
    if conn.host.len() == 0 {
        return Err(ScriptError::EmptyHost);
    }
    Ok(conn)
}

} // verus!

use crate::bytes::find_byte;
use crate::markers::{assert_close, assert_open, body_close, body_open, kw_content_type, kw_get,
    kw_method, kw_url, m_assert_close, m_assert_open, m_body_close, m_body_open, m_kw_content_type,
    m_kw_get, m_kw_method, m_kw_url, m_query_close, m_query_open, query_close, query_open};
use crate::test_bed::{get_operator, operator_of_symbol, TestCase, TestCaseV};

verus! {

/// The request-pass state: the finished requests, the one being built, and
/// the three mode flags.
pub struct ReqAcc {
    pub requests: Seq<RequestV>,
    pub cur: RequestV,
    pub is_query: bool,
    pub is_body: bool,
    pub is_test: bool,
}

/// A fresh request as `<query>` starts it: method `GET`, everything else
/// empty.
pub open spec fn fresh_request() -> RequestV {
    RequestV {
        url: Seq::empty(),
        method: m_kw_get(),
        body: Seq::empty(),
        content_type: Seq::empty(),
        test_cases: Seq::empty(),
    }
}

/// The cleared slot a finished request leaves behind: everything empty.
pub open spec fn empty_request() -> RequestV {
    RequestV {
        url: Seq::empty(),
        method: Seq::empty(),
        body: Seq::empty(),
        content_type: Seq::empty(),
        test_cases: Seq::empty(),
    }
}

/// The request pass before any line is read.
pub open spec fn initial_req_acc() -> ReqAcc {
    ReqAcc {
        requests: Seq::empty(),
        cur: empty_request(),
        is_query: false,
        is_body: false,
        is_test: false,
    }
}

/// At most three tokens, split at the first two single spaces; the third
/// token keeps any further spaces.
pub open spec fn splitn3_spec(s: Seq<u8>) -> Seq<Seq<u8>> {
    let i = find_spec(s, ' ' as u8);
    if !(0 <= i < s.len()) {
        seq![s]
    } else {
        let rest = s.subrange(i + 1, s.len() as int);
        let j = find_spec(rest, ' ' as u8);
        if !(0 <= j < rest.len()) {
            seq![s.subrange(0, i), rest]
        } else {
            seq![s.subrange(0, i), rest.subrange(0, j), rest.subrange(j + 1, rest.len() as int)]
        }
    }
}

/// Split a trimmed assertion line into at most three tokens.
pub fn splitn3(s: &[u8]) -> (r: Vec<Vec<u8>>)
    ensures
        r.deep_view() == splitn3_spec(s@),
        1 <= r@.len() <= 3,
{
    let mut r: Vec<Vec<u8>> = Vec::new();
    let i = find_byte(s, ' ' as u8);
    proof {
        lemma_find_spec(s@, ' ' as u8);
    }
    if i == s.len() {
        r.push(vstd::slice::slice_to_vec(s));
        proof {
            assert(r.deep_view() =~~= splitn3_spec(s@));
        }
        return r;
    }
    let rest = &s[i + 1..s.len()];
    proof {
        assert(rest@ =~= s@.subrange(i + 1, s@.len() as int));
    }
    let j = find_byte(rest, ' ' as u8);
    proof {
        lemma_find_spec(rest@, ' ' as u8);
    }
    r.push(vstd::slice::slice_to_vec(&s[0..i]));
    if j == rest.len() {
        r.push(vstd::slice::slice_to_vec(rest));
        proof {
            assert(r.deep_view() =~~= splitn3_spec(s@));
        }
    } else {
        r.push(vstd::slice::slice_to_vec(&rest[0..j]));
        r.push(vstd::slice::slice_to_vec(&rest[j + 1..rest.len()]));
        proof {
            assert(r.deep_view() =~~= splitn3_spec(s@));
        }
    }
    r
}

/// One assertion line folded into the state: exactly three whitespace-split
/// tokens, the middle one a recognized operator symbol; the parsed case is
/// appended to the current request.
pub open spec fn assert_line_step(acc: ReqAcc, t: Seq<u8>) -> Result<ReqAcc, ScriptErrorV> {
    let parts = splitn3_spec(t);
    if parts.len() != 3 {
        Err(ScriptErrorV::InvalidExpression(t, parts.len()))
    } else {
        match operator_of_symbol(parts[1]) {
            Some(op) => Ok(
                ReqAcc {
                    requests: acc.requests,
                    cur: RequestV {
                        url: acc.cur.url,
                        method: acc.cur.method,
                        body: acc.cur.body,
                        content_type: acc.cur.content_type,
                        test_cases: acc.cur.test_cases.push(
                            TestCaseV { key: parts[0], value: parts[2], operation: op },
                        ),
                    },
                    is_query: acc.is_query,
                    is_body: acc.is_body,
                    is_test: acc.is_test,
                },
            ),
            None => Err(ScriptErrorV::UnknownSymbol(parts[1])),
        }
    }
}

/// What one script line does to the request-pass state. Query markers are
/// recognized first; inside a body every other line — a whitespace-only one
/// included — is captured verbatim with a newline; elsewhere a line that
/// trims to nothing is ignored; a `key=value` line directly inside a query
/// sets `url`, `method` (upper-cased) or `content-type` (lower-cased); an
/// unknown key fails naming it; any other line is ignored.
pub open spec fn req_line_step(acc: ReqAcc, line: Seq<u8>) -> Result<ReqAcc, ScriptErrorV> {
    let t = trim_spec(line);
    if t == m_query_open() {
        Ok(
            ReqAcc {
                requests: acc.requests,
                cur: fresh_request(),
                is_query: true,
                is_body: acc.is_body,
                is_test: acc.is_test,
            },
        )
    } else if t == m_query_close() {
        Ok(
            ReqAcc {
                requests: acc.requests.push(acc.cur),
                cur: empty_request(),
                is_query: false,
                is_body: acc.is_body,
                is_test: acc.is_test,
            },
        )
    } else if acc.is_body {
        if t == m_body_close() {
            Ok(
                ReqAcc {
                    requests: acc.requests,
                    cur: acc.cur,
                    is_query: acc.is_query,
                    is_body: false,
                    is_test: acc.is_test,
                },
            )
        } else {
            Ok(
                ReqAcc {
                    requests: acc.requests,
                    cur: RequestV {
                        url: acc.cur.url,
                        method: acc.cur.method,
                        body: acc.cur.body + line + seq![('\n' as u8)],
                        content_type: acc.cur.content_type,
                        test_cases: acc.cur.test_cases,
                    },
                    is_query: acc.is_query,
                    is_body: acc.is_body,
                    is_test: acc.is_test,
                },
            )
        }
    } else if t.len() == 0 {
        Ok(acc)
    } else if acc.is_test {
        if t == m_assert_close() {
            Ok(
                ReqAcc {
                    requests: acc.requests,
                    cur: acc.cur,
                    is_query: acc.is_query,
                    is_body: acc.is_body,
                    is_test: false,
                },
            )
        } else {
            assert_line_step(acc, t)
        }
    } else if acc.is_query {
        if t == m_body_open() {
            Ok(
                ReqAcc {
                    requests: acc.requests,
                    cur: acc.cur,
                    is_query: acc.is_query,
                    is_body: true,
                    is_test: acc.is_test,
                },
            )
        } else if t == m_assert_open() {
            Ok(
                ReqAcc {
                    requests: acc.requests,
                    cur: acc.cur,
                    is_query: acc.is_query,
                    is_body: acc.is_body,
                    is_test: true,
                },
            )
        } else {
            match split_once_spec(line, '=' as u8) {
                Some(kv) => {
                    let kt = trim_spec(kv.0);
                    let vt = trim_spec(kv.1);
                    if kt == m_kw_url() {
                        Ok(
                            ReqAcc {
                                requests: acc.requests,
                                cur: RequestV {
                                    url: vt,
                                    method: acc.cur.method,
                                    body: acc.cur.body,
                                    content_type: acc.cur.content_type,
                                    test_cases: acc.cur.test_cases,
                                },
                                is_query: acc.is_query,
                                is_body: acc.is_body,
                                is_test: acc.is_test,
                            },
                        )
                    } else if kt == m_kw_method() {
                        Ok(
                            ReqAcc {
                                requests: acc.requests,
                                cur: RequestV {
                                    url: acc.cur.url,
                                    method: to_upper_spec(vt),
                                    body: acc.cur.body,
                                    content_type: acc.cur.content_type,
                                    test_cases: acc.cur.test_cases,
                                },
                                is_query: acc.is_query,
                                is_body: acc.is_body,
                                is_test: acc.is_test,
                            },
                        )
                    } else if kt == m_kw_content_type() {
                        Ok(
                            ReqAcc {
                                requests: acc.requests,
                                cur: RequestV {
                                    url: acc.cur.url,
                                    method: acc.cur.method,
                                    body: acc.cur.body,
                                    content_type: to_lower_spec(vt),
                                    test_cases: acc.cur.test_cases,
                                },
                                is_query: acc.is_query,
                                is_body: acc.is_body,
                                is_test: acc.is_test,
                            },
                        )
                    } else {
                        Err(ScriptErrorV::UnknownKey(kv.0))
                    }
                },
                None => Ok(acc),
            }
        }
    } else {
        Ok(acc)
    }
}

/// The script lines folded over [`req_line_step`].
pub open spec fn req_fold(acc: ReqAcc, ls: Seq<Seq<u8>>) -> Result<ReqAcc, ScriptErrorV>
    decreases ls.len(),
{
    if ls.len() == 0 {
        Ok(acc)
    } else {
        match req_line_step(acc, ls[0]) {
            Ok(a) => req_fold(a, ls.drop_first()),
            Err(e) => Err(e),
        }
    }
}

/// What the request pass yields: the requests of the closed query blocks, in
/// script order.
pub open spec fn fetch_requests_spec(s: Seq<u8>) -> Result<Seq<RequestV>, ScriptErrorV> {
    match req_fold(initial_req_acc(), lines_spec(s)) {
        Ok(a) => Ok(a.requests),
        Err(e) => Err(e),
    }
}

} // verus!

use crate::bytes::bytes_eq;
use vstd::slice::slice_to_vec;

verus! {

/// The spec view of the request parser's running state.
pub open spec fn acc_of(
    requests: Seq<Request>,
    cur: RequestV,
    is_query: bool,
    is_body: bool,
    is_test: bool,
) -> ReqAcc {
    ReqAcc { requests: requests.map_values(|q: Request| q@), cur, is_query, is_body, is_test }
}

/// Parse every `<query>` block of the script into a request descriptor, in
/// script order.
pub fn fetch_requests(script: &[u8]) -> (r: Result<Vec<Request>, ScriptError>)
    ensures
        match r {
            Ok(v) => fetch_requests_spec(script@) == Ok::<Seq<RequestV>, ScriptErrorV>(
                v@.map_values(|q: Request| q@),
            ),
            Err(e) => fetch_requests_spec(script@) == Err::<Seq<RequestV>, ScriptErrorV>(e@),
        },
{
    let ls = lines(script);
    let ghost lsv = lines_spec(script@);
    let mut requests: Vec<Request> = Vec::new();
    let mut cur = Request {
        url: Vec::new(),
        method: Vec::new(),
        body: Vec::new(),
        content_type: Vec::new(),
        test_cases: Vec::new(),
    };
    let mut is_query = false;
    let mut is_body = false;
    let mut is_test = false;
    let mut i: usize = 0;
    proof {
        assert(requests@.map_values(|q: Request| q@) =~~= Seq::<RequestV>::empty());
        assert(cur@.test_cases =~~= Seq::<TestCaseV>::empty());
        assert(cur@ == empty_request());
        assert(acc_of(requests@, cur@, is_query, is_body, is_test) == initial_req_acc());
        assert(lsv.subrange(0, lsv.len() as int) =~~= lsv);
    }
    while i < ls.len()
        invariant
            0 <= i <= ls@.len(),
            ls.deep_view() == lsv,
            lsv == lines_spec(script@),
            req_fold(initial_req_acc(), lsv) == req_fold(
                acc_of(requests@, cur@, is_query, is_body, is_test),
                lsv.subrange(i as int, lsv.len() as int),
            ),
        decreases ls@.len() - i,
    {
        let ghost tail = lsv.subrange(i as int, lsv.len() as int);
        let ghost acc0 = acc_of(requests@, cur@, is_query, is_body, is_test);
        proof {
            assert(tail[0] == lsv[i as int]);
            assert(tail.drop_first() =~~= lsv.subrange(i + 1, lsv.len() as int));
            assert(ls@[i as int]@ == lsv[i as int]);
        }
        let line = &ls[i];
        let t = trim(line.as_slice());
        if bytes_eq(t, query_open()) {
            cur = Request {
                url: Vec::new(),
                method: slice_to_vec(kw_get()),
                body: Vec::new(),
                content_type: Vec::new(),
                test_cases: Vec::new(),
            };
            is_query = true;
            proof {
                assert(cur@.test_cases =~~= Seq::<TestCaseV>::empty());
                assert(cur@ == fresh_request());
                assert(req_line_step(acc0, tail[0]) == Ok::<ReqAcc, ScriptErrorV>(
                    acc_of(requests@, cur@, is_query, is_body, is_test),
                ));
            }
            i = i + 1;
            continue;
        }
        if bytes_eq(t, query_close()) {
            requests.push(cur);
            cur = Request {
                url: Vec::new(),
                method: Vec::new(),
                body: Vec::new(),
                content_type: Vec::new(),
                test_cases: Vec::new(),
            };
            is_query = false;
            proof {
                assert(requests@.map_values(|q: Request| q@) =~~= acc0.requests.push(acc0.cur));
                assert(cur@.test_cases =~~= Seq::<TestCaseV>::empty());
                assert(cur@ == empty_request());
                assert(req_line_step(acc0, tail[0]) == Ok::<ReqAcc, ScriptErrorV>(
                    acc_of(requests@, cur@, is_query, is_body, is_test),
                ));
            }
            i = i + 1;
            continue;
        }
        if is_body {
            if bytes_eq(t, body_close()) {
                is_body = false;
            } else {
                cur.body.extend_from_slice(line.as_slice());
                cur.body.push('\n' as u8);
                proof {
                    assert(cur@.body =~= acc0.cur.body + tail[0] + seq![('\n' as u8)]);
                }
            }
            proof {
                assert(req_line_step(acc0, tail[0]) == Ok::<ReqAcc, ScriptErrorV>(
                    acc_of(requests@, cur@, is_query, is_body, is_test),
                ));
            }
            i = i + 1;
            continue;
        }
        if t.len() == 0 {
            proof {
                assert(req_line_step(acc0, tail[0]) == Ok::<ReqAcc, ScriptErrorV>(acc0));
            }
            i = i + 1;
            continue;
        }
        if is_test {
            if bytes_eq(t, assert_close()) {
                is_test = false;
                proof {
                    assert(req_line_step(acc0, tail[0]) == Ok::<ReqAcc, ScriptErrorV>(
                        acc_of(requests@, cur@, is_query, is_body, is_test),
                    ));
                }
            } else {
                let parts = splitn3(t);
                proof {
                    assert(parts@.len() == splitn3_spec(t@).len());
                }
                if parts.len() != 3 {
                    proof {
                        assert(req_line_step(acc0, tail[0]) == Err::<ReqAcc, ScriptErrorV>(
                            ScriptErrorV::InvalidExpression(t@, splitn3_spec(t@).len()),
                        ));
                    }
                    let n = parts.len();
                    return Err(ScriptError::InvalidExpression(slice_to_vec(t), n));
                }
                proof {
                    assert(parts@[1]@ == splitn3_spec(t@)[1]);
                    assert(parts@[0]@ == splitn3_spec(t@)[0]);
                    assert(parts@[2]@ == splitn3_spec(t@)[2]);
                }
                let op = match get_operator(parts[1].as_slice()) {
                    Ok(o) => o,
                    Err(e) => {
                        proof {
                            assert(req_line_step(acc0, tail[0]) == Err::<ReqAcc, ScriptErrorV>(
                                e@,
                            ));
                        }
                        return Err(e);
                    },
                };
                cur.test_cases.push(
                    TestCase {
                        key: slice_to_vec(parts[0].as_slice()),
                        value: slice_to_vec(parts[2].as_slice()),
                        operation: op,
                    },
                );
                proof {
                    assert(cur@.test_cases =~~= acc0.cur.test_cases.push(
                        TestCaseV {
                            key: splitn3_spec(t@)[0],
                            value: splitn3_spec(t@)[2],
                            operation: op,
                        },
                    ));
                    assert(req_line_step(acc0, tail[0]) == Ok::<ReqAcc, ScriptErrorV>(
                        acc_of(requests@, cur@, is_query, is_body, is_test),
                    ));
                }
            }
            i = i + 1;
            continue;
        }
        if is_query {
            if bytes_eq(t, body_open()) {
                is_body = true;
            } else if bytes_eq(t, assert_open()) {
                is_test = true;
            } else {
                match split_once(line.as_slice(), '=' as u8) {
                    Some((k, v)) => {
                        let kt = trim(k);
                        let vt = trim(v);
                        if bytes_eq(kt, kw_url()) {
                            cur.url = slice_to_vec(vt);
                        } else if bytes_eq(kt, kw_method()) {
                            cur.method = to_upper(vt);
                        } else if bytes_eq(kt, kw_content_type()) {
                            cur.content_type = to_lower(vt);
                        } else {
                            proof {
                                assert(req_line_step(acc0, tail[0]) == Err::<ReqAcc, ScriptErrorV>(
                                    ScriptErrorV::UnknownKey(k@),
                                ));
                            }
                            return Err(ScriptError::UnknownKey(slice_to_vec(k)));
                        }
                    },
                    None => {},
                }
            }
            proof {
                assert(req_line_step(acc0, tail[0]) == Ok::<ReqAcc, ScriptErrorV>(
                    acc_of(requests@, cur@, is_query, is_body, is_test),
                ));
            }
            i = i + 1;
            continue;
        }
        proof {
            assert(req_line_step(acc0, tail[0]) == Ok::<ReqAcc, ScriptErrorV>(acc0));
        }
        i = i + 1;
    }
    proof {
        let accf = acc_of(requests@, cur@, is_query, is_body, is_test);
        assert(req_fold(accf, lsv.subrange(i as int, lsv.len() as int)) == Ok::<
            ReqAcc,
            ScriptErrorV,
        >(accf));
    }
    Ok(requests)
}

} // verus!

verus! {

/// The line sets the port: a `key=value` line whose trimmed key is `port`.
pub open spec fn line_sets_port(l: Seq<u8>) -> bool {
    match split_once_spec(trim_spec(l), '=' as u8) {
        Some(kv) => trim_spec(kv.0) == m_kw_port(),
        None => false,
    }
}

/// The line is the bare `unsafe` token.
pub open spec fn line_is_unsafe(l: Seq<u8>) -> bool {
    trim_spec(l) == m_kw_unsafe()
}

/// Law: a connect block without an `unsafe` line and without a `port=` line
/// leaves the port, the security flag and the port-set mark exactly as they
/// started — so a well-formed script with neither yields port 443 and a
/// secure connection, the initial state.
pub proof fn lemma_conn_defaults_kept(acc: ConnParse, ls: Seq<Seq<u8>>, c: ConnParse)
    requires
        forall|i: int| 0 <= i < ls.len() ==> !line_sets_port(#[trigger] ls[i]),
        forall|i: int| 0 <= i < ls.len() ==> !line_is_unsafe(#[trigger] ls[i]),
        conn_fold(acc, ls) == Ok::<ConnParse, ScriptErrorV>(c),
    ensures
        c.conn.port == acc.conn.port,
        c.conn.is_safe == acc.conn.is_safe,
        c.port_set == acc.port_set,
    decreases ls.len(),
{
    if ls.len() == 0 {
    } else if trim_spec(ls[0]) == m_connect_close() {
    } else {
        match conn_line_step(acc, ls[0]) {
            Ok(a) => {
                assert(a.conn.port == acc.conn.port && a.conn.is_safe == acc.conn.is_safe
                    && a.port_set == acc.port_set);
                lemma_conn_defaults_kept(a, ls.drop_first(), c);
            },
            Err(_) => {},
        }
    }
}

/// Law: once an explicit `port=` line has fixed the port, nothing but another
/// `port=` line changes it — in particular a later `unsafe` line switches to
/// plaintext without touching the port. The explicit override always wins.
pub proof fn lemma_explicit_port_wins(acc: ConnParse, ls: Seq<Seq<u8>>, c: ConnParse)
    requires
        forall|i: int| 0 <= i < ls.len() ==> !line_sets_port(#[trigger] ls[i]),
        acc.port_set,
        conn_fold(acc, ls) == Ok::<ConnParse, ScriptErrorV>(c),
    ensures
        c.conn.port == acc.conn.port,
        c.port_set,
    decreases ls.len(),
{
    if ls.len() == 0 {
    } else if trim_spec(ls[0]) == m_connect_close() {
    } else {
        match conn_line_step(acc, ls[0]) {
            Ok(a) => {
                lemma_explicit_port_wins(a, ls.drop_first(), c);
            },
            Err(_) => {},
        }
    }
}

/// Law: once the connection stands on the plaintext default — port 80, not
/// secure, no explicit port — a connect block without a `port=` line leaves
/// it there.
pub proof fn lemma_conn_fold_keeps_insecure(acc: ConnParse, ls: Seq<Seq<u8>>, c: ConnParse)
    requires
        forall|i: int| 0 <= i < ls.len() ==> !line_sets_port(#[trigger] ls[i]),
        acc.conn.port == 80,
        !acc.conn.is_safe,
        !acc.port_set,
        conn_fold(acc, ls) == Ok::<ConnParse, ScriptErrorV>(c),
    ensures
        c.conn.port == 80,
        !c.conn.is_safe,
    decreases ls.len(),
{
    if ls.len() == 0 {
    } else if trim_spec(ls[0]) == m_connect_close() {
    } else {
        match conn_line_step(acc, ls[0]) {
            Ok(a) => {
                lemma_conn_fold_keeps_insecure(a, ls.drop_first(), c);
            },
            Err(_) => {},
        }
    }
}

/// Law: an `unsafe` line that stands before any `</connect>` line switches the
/// connection to plaintext, and absent an explicit `port=` override (which
/// always wins) the port becomes 80 and stays there.
pub proof fn lemma_unsafe_wins(acc: ConnParse, ls: Seq<Seq<u8>>, c: ConnParse, j: int)
    requires
        forall|i: int| 0 <= i < ls.len() ==> !line_sets_port(#[trigger] ls[i]),
        !acc.port_set,
        0 <= j < ls.len(),
        line_is_unsafe(ls[j]),
        forall|k: int| 0 <= k < j ==> trim_spec(#[trigger] ls[k]) != m_connect_close(),
        conn_fold(acc, ls) == Ok::<ConnParse, ScriptErrorV>(c),
    ensures
        c.conn.port == 80,
        !c.conn.is_safe,
    decreases ls.len(),
{
    if trim_spec(ls[0]) == m_kw_unsafe() {
        lemma_find_spec(m_kw_unsafe(), '=' as u8);
        assert(split_once_spec(m_kw_unsafe(), '=' as u8) is None);
        match conn_line_step(acc, ls[0]) {
            Ok(a) => {
                assert(a.conn.port == 80 && !a.conn.is_safe && !a.port_set);
                lemma_conn_fold_keeps_insecure(a, ls.drop_first(), c);
            },
            Err(_) => {},
        }
    } else {
        assert(j != 0);
        assert(trim_spec(ls[0]) != m_connect_close());
        match conn_line_step(acc, ls[0]) {
            Ok(a) => {
                assert(ls.drop_first()[j - 1] == ls[j]);
                assert forall|k: int| 0 <= k < j - 1 implies trim_spec(
                    #[trigger] ls.drop_first()[k],
                ) != m_connect_close() by {
                    assert(ls.drop_first()[k] == ls[k + 1]);
                }
                lemma_unsafe_wins(a, ls.drop_first(), c, j - 1);
            },
            Err(_) => {},
        }
    }
}

/// The line sets the request method: a `key=value` line whose trimmed key is
/// `method`. The split looks at the raw line, as the request pass does.
pub open spec fn line_sets_method(l: Seq<u8>) -> bool {
    match split_once_spec(l, '=' as u8) {
        Some(kv) => trim_spec(kv.0) == m_kw_method(),
        None => false,
    }
}

/// A method a request can carry in a script that never writes `method=`:
/// the default `GET`, or the empty cleared slot that only a stray `</query>`
/// outside any block can push.
pub open spec fn default_method(m: Seq<u8>) -> bool {
    m == m_kw_get() || m == Seq::<u8>::empty()
}

proof fn lemma_no_method_line_keeps_default(acc: ReqAcc, ls: Seq<Seq<u8>>, a2: ReqAcc)
    requires
        forall|i: int| 0 <= i < ls.len() ==> !line_sets_method(#[trigger] ls[i]),
        forall|i: int| 0 <= i < acc.requests.len() ==> default_method(#[trigger] acc.requests[i].method),
        default_method(acc.cur.method),
        req_fold(acc, ls) == Ok::<ReqAcc, ScriptErrorV>(a2),
    ensures
        forall|i: int| 0 <= i < a2.requests.len() ==> default_method(#[trigger] a2.requests[i].method),
        default_method(a2.cur.method),
    decreases ls.len(),
{
    if ls.len() == 0 {
    } else {
        match req_line_step(acc, ls[0]) {
            Ok(a) => {
                assert forall|i: int| 0 <= i < a.requests.len() implies default_method(
                    #[trigger] a.requests[i].method,
                ) by {
                    if i < acc.requests.len() {
                        assert(default_method(acc.requests[i].method));
                    }
                }
                assert(default_method(a.cur.method));
                lemma_no_method_line_keeps_default(a, ls.drop_first(), a2);
            },
            Err(_) => {},
        }
    }
}

/// Law: in a script with no `method=` line, every parsed request carries the
/// default method `GET` — except the cleared empty slot that only a stray
/// `</query>` outside any query block can push.
pub proof fn lemma_default_method_is_get(s: Seq<u8>, rs: Seq<RequestV>)
    requires
        forall|i: int|
            0 <= i < lines_spec(s).len() ==> !line_sets_method(#[trigger] lines_spec(s)[i]),
        fetch_requests_spec(s) == Ok::<Seq<RequestV>, ScriptErrorV>(rs),
    ensures
        forall|i: int| 0 <= i < rs.len() ==> default_method(#[trigger] rs[i].method),
{
    match req_fold(initial_req_acc(), lines_spec(s)) {
        Ok(a) => {
            lemma_no_method_line_keeps_default(initial_req_acc(), lines_spec(s), a);
        },
        Err(_) => {},
    }
}

} // verus!

verus! {

/// Law: a script whose connection pass succeeds and that holds no `unsafe`
/// line and no `port=` line yields the defaults — port 443 and a secure
/// connection.
pub proof fn lemma_connection_defaults(s: Seq<u8>, c: ConnectionV)
    requires
        forall|i: int|
            0 <= i < lines_spec(s).len() ==> !line_sets_port(#[trigger] lines_spec(s)[i]),
        forall|i: int|
            0 <= i < lines_spec(s).len() ==> !line_is_unsafe(#[trigger] lines_spec(s)[i]),
        connection_header_spec(s) == Ok::<ConnectionV, ScriptErrorV>(c),
    ensures
        c.port == 443,
        c.is_safe,
{
    let ls = lines_spec(s);
    let block = ls.drop_first();
    assert forall|i: int| 0 <= i < block.len() implies !line_sets_port(#[trigger] block[i])
        && !line_is_unsafe(block[i]) by {
        assert(block[i] == ls[i + 1]);
    }
    match conn_fold(initial_conn_parse(), block) {
        Ok(a) => {
            lemma_conn_defaults_kept(initial_conn_parse(), block, a);
        },
        Err(_) => {},
    }
}

} // verus!
