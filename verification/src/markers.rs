//! The literal byte sequences of the hop-script grammar and of the HTTP/1.1
//! wire format, each as a spec-level sequence paired with a runtime slice
//! proved equal to it.

use vstd::prelude::*;

use crate::bytes::ascii_bytes;

verus! {

/// The bytes of `<connect>`.
pub open spec fn m_connect_open() -> Seq<u8> {
    seq!['<' as u8, 'c' as u8, 'o' as u8, 'n' as u8, 'n' as u8, 'e' as u8, 'c' as u8, 't' as u8, '>' as u8]
}

/// `<connect>` as a byte slice.
pub fn connect_open() -> (r: &'static [u8])
    ensures
        r@ == m_connect_open(),
{
    let s = "<connect>";
    proof {
        reveal_strlit("<connect>");
    }
    let r = ascii_bytes(s);
    proof {
        assert(r@ =~= m_connect_open());
    }
    r
}

/// The bytes of `</connect>`.
pub open spec fn m_connect_close() -> Seq<u8> {
    seq!['<' as u8, '/' as u8, 'c' as u8, 'o' as u8, 'n' as u8, 'n' as u8, 'e' as u8, 'c' as u8, 't' as u8, '>' as u8]
}

/// `</connect>` as a byte slice.
pub fn connect_close() -> (r: &'static [u8])
    ensures
        r@ == m_connect_close(),
{
    let s = "</connect>";
    proof {
        reveal_strlit("</connect>");
    }
    let r = ascii_bytes(s);
    proof {
        assert(r@ =~= m_connect_close());
    }
    r
}

/// The bytes of `<query>`.
pub open spec fn m_query_open() -> Seq<u8> {
    seq!['<' as u8, 'q' as u8, 'u' as u8, 'e' as u8, 'r' as u8, 'y' as u8, '>' as u8]
}

/// `<query>` as a byte slice.
pub fn query_open() -> (r: &'static [u8])
    ensures
        r@ == m_query_open(),
{
    let s = "<query>";
    proof {
        reveal_strlit("<query>");
    }
    let r = ascii_bytes(s);
    proof {
        assert(r@ =~= m_query_open());
    }
    r
}

/// The bytes of `</query>`.
pub open spec fn m_query_close() -> Seq<u8> {
    seq!['<' as u8, '/' as u8, 'q' as u8, 'u' as u8, 'e' as u8, 'r' as u8, 'y' as u8, '>' as u8]
}

/// `</query>` as a byte slice.
pub fn query_close() -> (r: &'static [u8])
    ensures
        r@ == m_query_close(),
{
    let s = "</query>";
    proof {
        reveal_strlit("</query>");
    }
    let r = ascii_bytes(s);
    proof {
        assert(r@ =~= m_query_close());
    }
    r
}

/// The bytes of `<body>`.
pub open spec fn m_body_open() -> Seq<u8> {
    seq!['<' as u8, 'b' as u8, 'o' as u8, 'd' as u8, 'y' as u8, '>' as u8]
}

/// `<body>` as a byte slice.
pub fn body_open() -> (r: &'static [u8])
    ensures
        r@ == m_body_open(),
{
    let s = "<body>";
    proof {
        reveal_strlit("<body>");
    }
    let r = ascii_bytes(s);
    proof {
        assert(r@ =~= m_body_open());
    }
    r
}

/// The bytes of `</body>`.
pub open spec fn m_body_close() -> Seq<u8> {
    seq!['<' as u8, '/' as u8, 'b' as u8, 'o' as u8, 'd' as u8, 'y' as u8, '>' as u8]
}

/// `</body>` as a byte slice.
pub fn body_close() -> (r: &'static [u8])
    ensures
        r@ == m_body_close(),
{
    let s = "</body>";
    proof {
        reveal_strlit("</body>");
    }
    let r = ascii_bytes(s);
    proof {
        assert(r@ =~= m_body_close());
    }
    r
}

/// The bytes of `<assert>`.
pub open spec fn m_assert_open() -> Seq<u8> {
    seq!['<' as u8, 'a' as u8, 's' as u8, 's' as u8, 'e' as u8, 'r' as u8, 't' as u8, '>' as u8]
}

/// `<assert>` as a byte slice.
pub fn assert_open() -> (r: &'static [u8])
    ensures
        r@ == m_assert_open(),
{
    let s = "<assert>";
    proof {
        reveal_strlit("<assert>");
    }
    let r = ascii_bytes(s);
    proof {
        assert(r@ =~= m_assert_open());
    }
    r
}

/// The bytes of `</assert>`.
pub open spec fn m_assert_close() -> Seq<u8> {
    seq!['<' as u8, '/' as u8, 'a' as u8, 's' as u8, 's' as u8, 'e' as u8, 'r' as u8, 't' as u8, '>' as u8]
}

/// `</assert>` as a byte slice.
pub fn assert_close() -> (r: &'static [u8])
    ensures
        r@ == m_assert_close(),
{
    let s = "</assert>";
    proof {
        reveal_strlit("</assert>");
    }
    let r = ascii_bytes(s);
    proof {
        assert(r@ =~= m_assert_close());
    }
    r
}

/// The bytes of `unsafe`.
pub open spec fn m_kw_unsafe() -> Seq<u8> {
    seq!['u' as u8, 'n' as u8, 's' as u8, 'a' as u8, 'f' as u8, 'e' as u8]
}

/// `unsafe` as a byte slice.
pub fn kw_unsafe() -> (r: &'static [u8])
    ensures
        r@ == m_kw_unsafe(),
{
    let s = "unsafe";
    proof {
        reveal_strlit("unsafe");
    }
    let r = ascii_bytes(s);
    proof {
        assert(r@ =~= m_kw_unsafe());
    }
    r
}

/// The bytes of `host`.
pub open spec fn m_kw_host() -> Seq<u8> {
    seq!['h' as u8, 'o' as u8, 's' as u8, 't' as u8]
}

/// `host` as a byte slice.
pub fn kw_host() -> (r: &'static [u8])
    ensures
        r@ == m_kw_host(),
{
    let s = "host";
    proof {
        reveal_strlit("host");
    }
    let r = ascii_bytes(s);
    proof {
        assert(r@ =~= m_kw_host());
    }
    r
}

/// The bytes of `port`.
pub open spec fn m_kw_port() -> Seq<u8> {
    seq!['p' as u8, 'o' as u8, 'r' as u8, 't' as u8]
}

/// `port` as a byte slice.
pub fn kw_port() -> (r: &'static [u8])
    ensures
        r@ == m_kw_port(),
{
    let s = "port";
    proof {
        reveal_strlit("port");
    }
    let r = ascii_bytes(s);
    proof {
        assert(r@ =~= m_kw_port());
    }
    r
}

/// The bytes of `url`.
pub open spec fn m_kw_url() -> Seq<u8> {
    seq!['u' as u8, 'r' as u8, 'l' as u8]
}

/// `url` as a byte slice.
pub fn kw_url() -> (r: &'static [u8])
    ensures
        r@ == m_kw_url(),
{
    let s = "url";
    proof {
        reveal_strlit("url");
    }
    let r = ascii_bytes(s);
    proof {
        assert(r@ =~= m_kw_url());
    }
    r
}

/// The bytes of `method`.
pub open spec fn m_kw_method() -> Seq<u8> {
    seq!['m' as u8, 'e' as u8, 't' as u8, 'h' as u8, 'o' as u8, 'd' as u8]
}

/// `method` as a byte slice.
pub fn kw_method() -> (r: &'static [u8])
    ensures
        r@ == m_kw_method(),
{
    let s = "method";
    proof {
        reveal_strlit("method");
    }
    let r = ascii_bytes(s);
    proof {
        assert(r@ =~= m_kw_method());
    }
    r
}

/// The bytes of `content-type`.
pub open spec fn m_kw_content_type() -> Seq<u8> {
    seq!['c' as u8, 'o' as u8, 'n' as u8, 't' as u8, 'e' as u8, 'n' as u8, 't' as u8, '-' as u8, 't' as u8, 'y' as u8, 'p' as u8, 'e' as u8]
}

/// `content-type` as a byte slice.
pub fn kw_content_type() -> (r: &'static [u8])
    ensures
        r@ == m_kw_content_type(),
{
    let s = "content-type";
    proof {
        reveal_strlit("content-type");
    }
    let r = ascii_bytes(s);
    proof {
        assert(r@ =~= m_kw_content_type());
    }
    r
}

/// The bytes of `GET`.
pub open spec fn m_kw_get() -> Seq<u8> {
    seq!['G' as u8, 'E' as u8, 'T' as u8]
}

/// `GET` as a byte slice.
pub fn kw_get() -> (r: &'static [u8])
    ensures
        r@ == m_kw_get(),
{
    let s = "GET";
    proof {
        reveal_strlit("GET");
    }
    let r = ascii_bytes(s);
    proof {
        assert(r@ =~= m_kw_get());
    }
    r
}

/// The bytes of `POST`.
pub open spec fn m_kw_post() -> Seq<u8> {
    seq!['P' as u8, 'O' as u8, 'S' as u8, 'T' as u8]
}

/// `POST` as a byte slice.
pub fn kw_post() -> (r: &'static [u8])
    ensures
        r@ == m_kw_post(),
{
    let s = "POST";
    proof {
        reveal_strlit("POST");
    }
    let r = ascii_bytes(s);
    proof {
        assert(r@ =~= m_kw_post());
    }
    r
}

/// The bytes of `PUT`.
pub open spec fn m_kw_put() -> Seq<u8> {
    seq!['P' as u8, 'U' as u8, 'T' as u8]
}

/// `PUT` as a byte slice.
pub fn kw_put() -> (r: &'static [u8])
    ensures
        r@ == m_kw_put(),
{
    let s = "PUT";
    proof {
        reveal_strlit("PUT");
    }
    let r = ascii_bytes(s);
    proof {
        assert(r@ =~= m_kw_put());
    }
    r
}

/// The bytes of `status`.
pub open spec fn m_kw_status() -> Seq<u8> {
    seq!['s' as u8, 't' as u8, 'a' as u8, 't' as u8, 'u' as u8, 's' as u8]
}

/// `status` as a byte slice.
pub fn kw_status() -> (r: &'static [u8])
    ensures
        r@ == m_kw_status(),
{
    let s = "status";
    proof {
        reveal_strlit("status");
    }
    let r = ascii_bytes(s);
    proof {
        assert(r@ =~= m_kw_status());
    }
    r
}

/// The bytes of `body`.
pub open spec fn m_kw_body() -> Seq<u8> {
    seq!['b' as u8, 'o' as u8, 'd' as u8, 'y' as u8]
}

/// `body` as a byte slice.
pub fn kw_body() -> (r: &'static [u8])
    ensures
        r@ == m_kw_body(),
{
    let s = "body";
    proof {
        reveal_strlit("body");
    }
    let r = ascii_bytes(s);
    proof {
        assert(r@ =~= m_kw_body());
    }
    r
}

/// The bytes of ` HTTP/1.1\r\n`.
pub open spec fn m_http_suffix() -> Seq<u8> {
    seq![' ' as u8, 'H' as u8, 'T' as u8, 'T' as u8, 'P' as u8, '/' as u8, '1' as u8, '.' as u8, '1' as u8, '\r' as u8, '\n' as u8]
}

/// ` HTTP/1.1\r\n` as a byte slice.
pub fn http_suffix() -> (r: &'static [u8])
    ensures
        r@ == m_http_suffix(),
{
    let s = " HTTP/1.1\r\n";
    proof {
        reveal_strlit(" HTTP/1.1\r\n");
    }
    let r = ascii_bytes(s);
    proof {
        assert(r@ =~= m_http_suffix());
    }
    r
}

/// The bytes of `Host: `.
pub open spec fn m_h_host() -> Seq<u8> {
    seq!['H' as u8, 'o' as u8, 's' as u8, 't' as u8, ':' as u8, ' ' as u8]
}

/// `Host: ` as a byte slice.
pub fn h_host() -> (r: &'static [u8])
    ensures
        r@ == m_h_host(),
{
    let s = "Host: ";
    proof {
        reveal_strlit("Host: ");
    }
    let r = ascii_bytes(s);
    proof {
        assert(r@ =~= m_h_host());
    }
    r
}

/// The bytes of `User-Agent: NetHop/0.0\r\n`.
pub open spec fn m_h_user_agent() -> Seq<u8> {
    seq!['U' as u8, 's' as u8, 'e' as u8, 'r' as u8, '-' as u8, 'A' as u8, 'g' as u8, 'e' as u8, 'n' as u8, 't' as u8, ':' as u8, ' ' as u8, 'N' as u8, 'e' as u8, 't' as u8, 'H' as u8, 'o' as u8, 'p' as u8, '/' as u8, '0' as u8, '.' as u8, '0' as u8, '\r' as u8, '\n' as u8]
}

/// `User-Agent: NetHop/0.0\r\n` as a byte slice.
pub fn h_user_agent() -> (r: &'static [u8])
    ensures
        r@ == m_h_user_agent(),
{
    let s = "User-Agent: NetHop/0.0\r\n";
    proof {
        reveal_strlit("User-Agent: NetHop/0.0\r\n");
    }
    let r = ascii_bytes(s);
    proof {
        assert(r@ =~= m_h_user_agent());
    }
    r
}

/// The bytes of `Content-Type: `.
pub open spec fn m_h_content_type() -> Seq<u8> {
    seq!['C' as u8, 'o' as u8, 'n' as u8, 't' as u8, 'e' as u8, 'n' as u8, 't' as u8, '-' as u8, 'T' as u8, 'y' as u8, 'p' as u8, 'e' as u8, ':' as u8, ' ' as u8]
}

/// `Content-Type: ` as a byte slice.
pub fn h_content_type() -> (r: &'static [u8])
    ensures
        r@ == m_h_content_type(),
{
    let s = "Content-Type: ";
    proof {
        reveal_strlit("Content-Type: ");
    }
    let r = ascii_bytes(s);
    proof {
        assert(r@ =~= m_h_content_type());
    }
    r
}

/// The bytes of `Content-Length: `.
pub open spec fn m_h_content_length() -> Seq<u8> {
    seq!['C' as u8, 'o' as u8, 'n' as u8, 't' as u8, 'e' as u8, 'n' as u8, 't' as u8, '-' as u8, 'L' as u8, 'e' as u8, 'n' as u8, 'g' as u8, 't' as u8, 'h' as u8, ':' as u8, ' ' as u8]
}

/// `Content-Length: ` as a byte slice.
pub fn h_content_length() -> (r: &'static [u8])
    ensures
        r@ == m_h_content_length(),
{
    let s = "Content-Length: ";
    proof {
        reveal_strlit("Content-Length: ");
    }
    let r = ascii_bytes(s);
    proof {
        assert(r@ =~= m_h_content_length());
    }
    r
}

/// The bytes of `Accept: application/json\r\n`.
pub open spec fn m_h_accept() -> Seq<u8> {
    seq!['A' as u8, 'c' as u8, 'c' as u8, 'e' as u8, 'p' as u8, 't' as u8, ':' as u8, ' ' as u8, 'a' as u8, 'p' as u8, 'p' as u8, 'l' as u8, 'i' as u8, 'c' as u8, 'a' as u8, 't' as u8, 'i' as u8, 'o' as u8, 'n' as u8, '/' as u8, 'j' as u8, 's' as u8, 'o' as u8, 'n' as u8, '\r' as u8, '\n' as u8]
}

/// `Accept: application/json\r\n` as a byte slice.
pub fn h_accept() -> (r: &'static [u8])
    ensures
        r@ == m_h_accept(),
{
    let s = "Accept: application/json\r\n";
    proof {
        reveal_strlit("Accept: application/json\r\n");
    }
    let r = ascii_bytes(s);
    proof {
        assert(r@ =~= m_h_accept());
    }
    r
}

/// The bytes of `Accept-Encoding: identity\r\n`.
pub open spec fn m_h_accept_encoding() -> Seq<u8> {
    seq!['A' as u8, 'c' as u8, 'c' as u8, 'e' as u8, 'p' as u8, 't' as u8, '-' as u8, 'E' as u8, 'n' as u8, 'c' as u8, 'o' as u8, 'd' as u8, 'i' as u8, 'n' as u8, 'g' as u8, ':' as u8, ' ' as u8, 'i' as u8, 'd' as u8, 'e' as u8, 'n' as u8, 't' as u8, 'i' as u8, 't' as u8, 'y' as u8, '\r' as u8, '\n' as u8]
}

/// `Accept-Encoding: identity\r\n` as a byte slice.
pub fn h_accept_encoding() -> (r: &'static [u8])
    ensures
        r@ == m_h_accept_encoding(),
{
    let s = "Accept-Encoding: identity\r\n";
    proof {
        reveal_strlit("Accept-Encoding: identity\r\n");
    }
    let r = ascii_bytes(s);
    proof {
        assert(r@ =~= m_h_accept_encoding());
    }
    r
}

/// The bytes of `Connection: keep-alive\r\n`.
pub open spec fn m_h_connection() -> Seq<u8> {
    seq!['C' as u8, 'o' as u8, 'n' as u8, 'n' as u8, 'e' as u8, 'c' as u8, 't' as u8, 'i' as u8, 'o' as u8, 'n' as u8, ':' as u8, ' ' as u8, 'k' as u8, 'e' as u8, 'e' as u8, 'p' as u8, '-' as u8, 'a' as u8, 'l' as u8, 'i' as u8, 'v' as u8, 'e' as u8, '\r' as u8, '\n' as u8]
}

/// `Connection: keep-alive\r\n` as a byte slice.
pub fn h_connection() -> (r: &'static [u8])
    ensures
        r@ == m_h_connection(),
{
    let s = "Connection: keep-alive\r\n";
    proof {
        reveal_strlit("Connection: keep-alive\r\n");
    }
    let r = ascii_bytes(s);
    proof {
        assert(r@ =~= m_h_connection());
    }
    r
}

/// The bytes of `\r\n`.
pub open spec fn m_crlf() -> Seq<u8> {
    seq!['\r' as u8, '\n' as u8]
}

/// `\r\n` as a byte slice.
pub fn crlf() -> (r: &'static [u8])
    ensures
        r@ == m_crlf(),
{
    let s = "\r\n";
    proof {
        reveal_strlit("\r\n");
    }
    let r = ascii_bytes(s);
    proof {
        assert(r@ =~= m_crlf());
    }
    r
}

/// The bytes of `: `.
pub open spec fn m_header_sep() -> Seq<u8> {
    seq![':' as u8, ' ' as u8]
}

/// `: ` as a byte slice.
pub fn header_sep() -> (r: &'static [u8])
    ensures
        r@ == m_header_sep(),
{
    let s = ": ";
    proof {
        reveal_strlit(": ");
    }
    let r = ascii_bytes(s);
    proof {
        assert(r@ =~= m_header_sep());
    }
    r
}

/// The bytes of `content-length:`.
pub open spec fn m_cl_prefix() -> Seq<u8> {
    seq!['c' as u8, 'o' as u8, 'n' as u8, 't' as u8, 'e' as u8, 'n' as u8, 't' as u8, '-' as u8, 'l' as u8, 'e' as u8, 'n' as u8, 'g' as u8, 't' as u8, 'h' as u8, ':' as u8]
}

/// `content-length:` as a byte slice.
pub fn cl_prefix() -> (r: &'static [u8])
    ensures
        r@ == m_cl_prefix(),
{
    let s = "content-length:";
    proof {
        reveal_strlit("content-length:");
    }
    let r = ascii_bytes(s);
    proof {
        assert(r@ =~= m_cl_prefix());
    }
    r
}

/// The bytes of `transfer-encoding: chunked`.
pub open spec fn m_te_chunked() -> Seq<u8> {
    seq!['t' as u8, 'r' as u8, 'a' as u8, 'n' as u8, 's' as u8, 'f' as u8, 'e' as u8, 'r' as u8, '-' as u8, 'e' as u8, 'n' as u8, 'c' as u8, 'o' as u8, 'd' as u8, 'i' as u8, 'n' as u8, 'g' as u8, ':' as u8, ' ' as u8, 'c' as u8, 'h' as u8, 'u' as u8, 'n' as u8, 'k' as u8, 'e' as u8, 'd' as u8]
}

/// `transfer-encoding: chunked` as a byte slice.
pub fn te_chunked() -> (r: &'static [u8])
    ensures
        r@ == m_te_chunked(),
{
    let s = "transfer-encoding: chunked";
    proof {
        reveal_strlit("transfer-encoding: chunked");
    }
    let r = ascii_bytes(s);
    proof {
        assert(r@ =~= m_te_chunked());
    }
    r
}

/// The bytes of `application/json`.
pub open spec fn m_mime_json() -> Seq<u8> {
    seq!['a' as u8, 'p' as u8, 'p' as u8, 'l' as u8, 'i' as u8, 'c' as u8, 'a' as u8, 't' as u8, 'i' as u8, 'o' as u8, 'n' as u8, '/' as u8, 'j' as u8, 's' as u8, 'o' as u8, 'n' as u8]
}

/// `application/json` as a byte slice.
pub fn mime_json() -> (r: &'static [u8])
    ensures
        r@ == m_mime_json(),
{
    let s = "application/json";
    proof {
        reveal_strlit("application/json");
    }
    let r = ascii_bytes(s);
    proof {
        assert(r@ =~= m_mime_json());
    }
    r
}

/// The bytes of `application/text`.
pub open spec fn m_mime_text() -> Seq<u8> {
    seq!['a' as u8, 'p' as u8, 'p' as u8, 'l' as u8, 'i' as u8, 'c' as u8, 'a' as u8, 't' as u8, 'i' as u8, 'o' as u8, 'n' as u8, '/' as u8, 't' as u8, 'e' as u8, 'x' as u8, 't' as u8]
}

/// `application/text` as a byte slice.
pub fn mime_text() -> (r: &'static [u8])
    ensures
        r@ == m_mime_text(),
{
    let s = "application/text";
    proof {
        reveal_strlit("application/text");
    }
    let r = ascii_bytes(s);
    proof {
        assert(r@ =~= m_mime_text());
    }
    r
}

/// The bytes of `text/plain`.
pub open spec fn m_mime_plain() -> Seq<u8> {
    seq!['t' as u8, 'e' as u8, 'x' as u8, 't' as u8, '/' as u8, 'p' as u8, 'l' as u8, 'a' as u8, 'i' as u8, 'n' as u8]
}

/// `text/plain` as a byte slice.
pub fn mime_plain() -> (r: &'static [u8])
    ensures
        r@ == m_mime_plain(),
{
    let s = "text/plain";
    proof {
        reveal_strlit("text/plain");
    }
    let r = ascii_bytes(s);
    proof {
        assert(r@ =~= m_mime_plain());
    }
    r
}

} // verus!

verus! {

/// The bytes of `\r\n\r\n`, the head/body boundary.
pub open spec fn m_crlf_crlf() -> Seq<u8> {
    seq![('\r' as u8), ('\n' as u8), ('\r' as u8), ('\n' as u8)]
}

/// `\r\n\r\n` as a byte slice.
pub fn crlf_crlf() -> (r: &'static [u8])
    ensures
        r@ == m_crlf_crlf(),
{
    let s = "\r\n\r\n";
    proof {
        reveal_strlit("\r\n\r\n");
    }
    let r = ascii_bytes(s);
    proof {
        assert(r@ =~= m_crlf_crlf());
    }
    r
}

} // verus!
