//! The HTTP data model and the response-side decoding logic: one request
//! descriptor per query block, the decoded response facts, case-insensitive
//! header lookup, and the reparse of a raw head-and-body buffer into a
//! `Response` under the content-type body policy.

use vstd::prelude::*;

use crate::bytes::{bytes_eq, find_sub, find_sub_spec, lemma_find_sub_spec, to_lower, to_lower_spec};
use crate::markers::{crlf, header_sep, m_crlf, m_header_sep};
use crate::test_bed::{TestCase, TestCaseV};

verus! {

/// One HTTP request as a query block declares it, with its attached
/// assertions.
#[derive(Clone, Debug, Default)]
pub struct Request {
    pub url: Vec<u8>,
    pub method: Vec<u8>,
    pub body: Vec<u8>,
    pub content_type: Vec<u8>,
    pub test_cases: Vec<TestCase>,
}

/// The spec-level shape of a [`Request`].
pub struct RequestV {
    pub url: Seq<u8>,
    pub method: Seq<u8>,
    pub body: Seq<u8>,
    pub content_type: Seq<u8>,
    pub test_cases: Seq<TestCaseV>,
}

impl View for Request {
    type V = RequestV;

    open spec fn view(&self) -> RequestV {
        RequestV {
            url: self.url@,
            method: self.method@,
            body: self.body@,
            content_type: self.content_type@,
            test_cases: self.test_cases@.map_values(|t: TestCase| t@),
        }
    }
}

/// The decoded facts of one response: the status code, the raw header block
/// (lines joined by CRLF), and the decoded body.
#[derive(Debug)]
pub struct Response {
    pub status: u16,
    pub headers: Vec<u8>,
    pub body: Vec<u8>,
}

/// The spec-level shape of a [`Response`].
pub struct ResponseV {
    pub status: u16,
    pub headers: Seq<u8>,
    pub body: Seq<u8>,
}

impl View for Response {
    type V = ResponseV;

    open spec fn view(&self) -> ResponseV {
        ResponseV { status: self.status, headers: self.headers@, body: self.body@ }
    }
}

/// The segments of `s` split at every `\r\n`, as `str::split` yields them: an
/// empty `s` gives one empty segment.
pub open spec fn crlf_split_spec(s: Seq<u8>) -> Seq<Seq<u8>>
    decreases s.len(),
{
    let i = find_sub_spec(s, m_crlf());
    if 0 <= i && i + 2 <= s.len() {
        seq![s.subrange(0, i)] + crlf_split_spec(s.subrange(i + 2, s.len() as int))
    } else {
        seq![s]
    }
}

/// What one header line answers for key `k`: the text after the first `": "`
/// when the text before it equals `k` up to ASCII case, nothing otherwise.
pub open spec fn header_line_match(line: Seq<u8>, k: Seq<u8>) -> Option<Seq<u8>> {
    let i = find_sub_spec(line, m_header_sep());
    if 0 <= i && i + 2 <= line.len() && to_lower_spec(line.subrange(0, i)) == to_lower_spec(k) {
        Some(line.subrange(i + 2, line.len() as int))
    } else {
        None
    }
}

/// The value of the first header line that matches `k`, scanning in order.
pub open spec fn lookup_header_spec(ls: Seq<Seq<u8>>, k: Seq<u8>) -> Option<Seq<u8>>
    decreases ls.len(),
{
    if ls.len() == 0 {
        None
    } else {
        match header_line_match(ls[0], k) {
            Some(v) => Some(v),
            None => lookup_header_spec(ls.drop_first(), k),
        }
    }
}

/// The header value for `k` in a raw CRLF-joined header block, matched
/// case-insensitively; an absent header is distinguishable from an empty one.
pub open spec fn get_header_spec(headers: Seq<u8>, k: Seq<u8>) -> Option<Seq<u8>> {
    lookup_header_spec(crlf_split_spec(headers), k)
}

impl Response {
    /// Look `k` up in the stored header lines, ignoring ASCII case.
    pub fn get_header(&self, k: &[u8]) -> (r: Option<Vec<u8>>)
        ensures
            match r {
                Some(v) => get_header_spec(self.headers@, k@) == Some(v@),
                None => get_header_spec(self.headers@, k@) is None,
            },
    {
        header_value(self.headers.as_slice(), k)
    }
}

} // verus!

use crate::bytes::{find_byte, find_spec, join_crlf_spec, lemma_find_spec, lines, lines_spec, m_crlf_seq,
    parse_u64_dec, parse_u64_spec, second_token, second_token_spec, trim, trim_spec};
use crate::errors::{HttpError, HttpErrorV};
use crate::markers::{crlf_crlf, kw_content_type, m_crlf_crlf, m_kw_content_type, m_mime_json,
    m_mime_plain, m_mime_text, mime_json, mime_plain, mime_text};

verus! {

/// What serde_json makes of a byte string: the canonical pretty-printed form
/// of the JSON document it writes, or the decoder's error message when it is
/// not valid JSON. A function of the input bytes alone.
pub uninterp spec fn json_reformat_of(s: Seq<u8>) -> Result<Seq<u8>, Seq<u8>>;

/// Relies on serde_json::from_slice and serde_json::to_string_pretty: parses
/// the body as JSON and re-serializes it pretty-printed; on failure hands back
/// the decoder's message.
#[verifier::external_body]
fn json_reformat(body: &[u8]) -> (r: Result<Vec<u8>, Vec<u8>>)
    ensures
        match r {
            Ok(p) => json_reformat_of(body@) == Ok::<Seq<u8>, Seq<u8>>(p@),
            Err(m) => json_reformat_of(body@) == Err::<Seq<u8>, Seq<u8>>(m@),
        },
{
    match serde_json::from_slice::<serde_json::Value>(body) {
        Ok(v) => match serde_json::to_string_pretty(&v) {
            Ok(s) => Ok(s.into_bytes()),
            Err(e) => Err(format!("{}", e).into_bytes()),
        },
        Err(e) => Err(format!("{}", e).into_bytes()),
    }
}

/// The MIME type of a content-type value: the text before any `;`, trimmed.
pub open spec fn mime_of_spec(ct: Seq<u8>) -> Seq<u8> {
    trim_spec(ct.subrange(0, find_spec(ct, ';' as u8)))
}

/// The reparse of a raw head-and-body buffer into response facts: split at the
/// first blank-line boundary, read the status from the first head line's
/// second token, keep the remaining head lines as the header block, and decode
/// the body under the content-type policy.
pub open spec fn parse_response_spec(raw: Seq<u8>) -> Result<ResponseV, HttpErrorV> {
    let sep = find_sub_spec(raw, m_crlf_crlf());
    if !(0 <= sep && sep + 4 <= raw.len()) {
        Err(HttpErrorV::MalformedResponse)
    } else {
        let head = raw.subrange(0, sep);
        let body = raw.subrange(sep + 4, raw.len() as int);
        let hls = lines_spec(head);
        if hls.len() == 0 {
            Err(HttpErrorV::EmptyResponse)
        } else {
            match second_token_spec(hls[0]) {
                None => Err(HttpErrorV::InvalidStatusLine),
                Some(tok) => match parse_u64_spec(tok) {
                    None => Err(HttpErrorV::InvalidStatusCode),
                    Some(v) => if v > 65535 {
                        Err(HttpErrorV::InvalidStatusCode)
                    } else {
                        let headers = join_crlf_spec(hls.drop_first());
                        match get_header_spec(headers, m_kw_content_type()) {
                            None => Err(HttpErrorV::MissingContentType),
                            Some(ct) => {
                                let mime = mime_of_spec(ct);
                                if mime == m_mime_text() || mime == m_mime_plain() {
                                    Ok(ResponseV { status: v as u16, headers, body })
                                } else if mime == m_mime_json() {
                                    match json_reformat_of(body) {
                                        Ok(p) => Ok(
                                            ResponseV { status: v as u16, headers, body: p },
                                        ),
                                        Err(m) => Err(HttpErrorV::MalformedJson(m)),
                                    }
                                } else {
                                    Err(HttpErrorV::UnsupportedContentType(mime))
                                }
                            },
                        }
                    },
                },
            }
        }
    }
}

/// Look `k` up in a raw CRLF-joined header block, ignoring ASCII case.
pub fn header_value(headers: &[u8], k: &[u8]) -> (r: Option<Vec<u8>>)
    ensures
        match r {
            Some(v) => get_header_spec(headers@, k@) == Some(v@),
            None => get_header_spec(headers@, k@) is None,
        },
{
    let lk = to_lower(k);
    let h = headers;
    let mut pos: usize = 0;
    proof {
        assert(h@.subrange(0, h@.len() as int) =~= h@);
    }
    loop
        invariant
            0 <= pos <= h@.len(),
            lk@ == to_lower_spec(k@),
            get_header_spec(headers@, k@) == lookup_header_spec(
                crlf_split_spec(h@.subrange(pos as int, h@.len() as int)),
                k@,
            ),
        decreases h@.len() - pos,
    {
        let ghost rest = h@.subrange(pos as int, h@.len() as int);
        let i = find_sub(&h[pos..h.len()], crlf());
        proof {
            lemma_find_sub_spec(rest, m_crlf());
        }
        let line = &h[pos..pos + i];
        proof {
            assert(line@ =~= rest.subrange(0, i as int));
        }
        let sep = find_sub(line, header_sep());
        proof {
            lemma_find_sub_spec(line@, m_header_sep());
        }
        if line.len() >= 2 && sep <= line.len() - 2 {
            let key = &line[0..sep];
            let val = &line[sep + 2..line.len()];
            if bytes_eq(to_lower(key).as_slice(), lk.as_slice()) {
                proof {
                    assert(key@ =~= line@.subrange(0, sep as int));
                    assert(val@ =~= line@.subrange(sep + 2, line@.len() as int));
                    if pos + i + 2 <= h@.len() {
                        assert(crlf_split_spec(rest)[0] == line@);
                    } else {
                        assert(crlf_split_spec(rest) =~~= seq![rest]);
                        assert(line@ =~= rest);
                    }
                    assert(header_line_match(line@, k@) == Some(val@));
                }
                return Some(vstd::slice::slice_to_vec(val));
            }
        }
        proof {
            if pos + i + 2 <= h@.len() {
                assert(crlf_split_spec(rest)[0] == line@);
            } else {
                assert(crlf_split_spec(rest) =~~= seq![rest]);
                assert(line@ =~= rest);
            }
            assert(header_line_match(line@, k@) is None);
        }
        if (h.len() - pos) - i >= 2 {
            proof {
                assert(crlf_split_spec(rest).drop_first() =~~= crlf_split_spec(
                    rest.subrange(i + 2, rest.len() as int),
                ));
                assert(rest.subrange(i + 2, rest.len() as int) =~= h@.subrange(
                    (pos + i + 2) as int,
                    h@.len() as int,
                ));
            }
            pos = pos + i + 2;
        } else {
            proof {
                assert(crlf_split_spec(rest) =~~= seq![rest]);
                assert(line@ =~= rest);
                assert(header_line_match(rest, k@) is None);
                let one: Seq<Seq<u8>> = seq![rest];
                assert(one.drop_first() =~~= Seq::<Seq<u8>>::empty());
                assert(lookup_header_spec(one.drop_first(), k@) is None);
                assert(lookup_header_spec(one, k@) is None);
                assert(lookup_header_spec(crlf_split_spec(rest), k@) is None);
            }
            return None;
        }
    }
}

/// Reparse a raw head-and-body buffer into a [`Response`], applying the
/// content-type body policy: plain text passes through, JSON is
/// pretty-printed, anything else is refused by name.
pub fn parse_response(raw: &[u8]) -> (r: Result<Response, HttpError>)
    ensures
        match r {
            Ok(resp) => parse_response_spec(raw@) == Ok::<ResponseV, HttpErrorV>(resp@),
            Err(e) => parse_response_spec(raw@) == Err::<ResponseV, HttpErrorV>(e@),
        },
{
    let sep = find_sub(raw, crlf_crlf());
    proof {
        lemma_find_sub_spec(raw@, m_crlf_crlf());
    }
    if raw.len() < 4 || sep > raw.len() - 4 {
        return Err(HttpError::MalformedResponse);
    }
    let head = &raw[0..sep];
    let body = &raw[sep + 4..raw.len()];
    proof {
        assert(head@ =~= raw@.subrange(0, sep as int));
        assert(body@ =~= raw@.subrange(sep + 4, raw@.len() as int));
    }
    let head_lines = lines(head);
    let ghost hls = lines_spec(head@);
    if head_lines.len() == 0 {
        return Err(HttpError::EmptyResponse);
    }
    proof {
        assert(head_lines@[0]@ == hls[0]);
    }
    let tok = match second_token(head_lines[0].as_slice()) {
        Some(t) => t,
        None => {
            return Err(HttpError::InvalidStatusLine);
        },
    };
    let status: u16 = match parse_u64_dec(tok) {
        Some(v) => {
            if v > 65535 {
                return Err(HttpError::InvalidStatusCode);
            } else {
                v as u16
            }
        },
        None => {
            return Err(HttpError::InvalidStatusCode);
        },
    };
    let mut headers: Vec<u8> = Vec::new();
    let mut li: usize = 1;
    proof {
        assert(hls.subrange(1, hls.len() as int) =~~= hls.drop_first());
    }
    while li < head_lines.len()
        invariant
            1 <= li <= head_lines@.len(),
            head_lines.deep_view() == hls,
            join_crlf_spec(hls.drop_first()) == headers@ + join_crlf_spec(
                hls.subrange(li as int, hls.len() as int),
            ),
        decreases head_lines@.len() - li,
    {
        let ghost tail = hls.subrange(li as int, hls.len() as int);
        proof {
            assert(tail[0] == hls[li as int]);
            assert(tail.drop_first() =~~= hls.subrange(li + 1, hls.len() as int));
            assert(head_lines@[li as int]@ == hls[li as int]);
        }
        headers.extend_from_slice(head_lines[li].as_slice());
        headers.push('\r' as u8);
        headers.push('\n' as u8);
        proof {
            assert(headers@ + join_crlf_spec(hls.subrange(li + 1, hls.len() as int)) =~= headers@
                + join_crlf_spec(hls.subrange(li + 1, hls.len() as int)));
            assert(join_crlf_spec(tail) == hls[li as int] + m_crlf_seq() + join_crlf_spec(
                tail.drop_first(),
            ));
        }
        li = li + 1;
    }
    proof {
        assert(join_crlf_spec(hls.subrange(li as int, hls.len() as int)) =~= Seq::<u8>::empty());
        assert(headers@ =~= join_crlf_spec(hls.drop_first()));
    }
    let ct = match header_value(headers.as_slice(), kw_content_type()) {
        Some(v) => v,
        None => {
            return Err(HttpError::MissingContentType);
        },
    };
    let semi = find_byte(ct.as_slice(), ';' as u8);
    proof {
        lemma_find_spec(ct@, ';' as u8);
    }
    let mime = trim(&ct.as_slice()[0..semi]);
    proof {
        assert(ct@.subrange(0, semi as int) =~= ct@.subrange(0, find_spec(ct@, ';' as u8)));
    }
    if bytes_eq(mime, mime_text()) || bytes_eq(mime, mime_plain()) {
        Ok(Response { status, headers, body: vstd::slice::slice_to_vec(body) })
    } else if bytes_eq(mime, mime_json()) {
        match json_reformat(body) {
            Ok(p) => Ok(Response { status, headers, body: p }),
            Err(m) => Err(HttpError::MalformedJson(m)),
        }
    } else {
        Err(HttpError::UnsupportedContentType(vstd::slice::slice_to_vec(mime)))
    }
}

} // verus!

use crate::bytes::{parse_hex_u64_spec, parse_u64_hex, split_once, split_once_spec, starts_with,
    starts_with_spec};
use crate::markers::{cl_prefix, m_cl_prefix, m_te_chunked, te_chunked};

verus! {

/// The content-length value a header line carries: the text after the first
/// `:`, trimmed and read as a decimal; an unparsable or oversized value reads
/// as zero.
pub open spec fn cl_value_spec(line: Seq<u8>) -> usize {
    match split_once_spec(line, ':' as u8) {
        Some(kv) => match parse_u64_spec(trim_spec(kv.1)) {
            Some(n) => if n <= usize::MAX as u64 {
                n as usize
            } else {
                0
            },
            None => 0,
        },
        None => 0,
    }
}

/// The running scan of response status and header lines: the raw lines
/// accumulate verbatim, while `content-length:` and `transfer-encoding:
/// chunked` are matched case-insensitively to steer body decoding.
pub struct HeadScan {
    pub headers: Vec<u8>,
    pub content_length: usize,
    pub is_chunked: bool,
}

impl HeadScan {
    /// An empty scan: no headers, length zero, not chunked.
    pub fn new() -> (r: HeadScan)
        ensures
            r.headers@ == Seq::<u8>::empty(),
            r.content_length == 0,
            !r.is_chunked,
    {
        HeadScan { headers: Vec::new(), content_length: 0, is_chunked: false }
    }

    /// Feed one raw line as read from the stream, line ending included. A bare
    /// CRLF or an empty read ends the head: the scan answers false and keeps
    /// its state. Any other line is appended verbatim, and the keyword
    /// prefixes update the decoding flags.
    pub fn feed_line(&mut self, line: &[u8]) -> (more: bool)
        ensures
            (line@ == m_crlf() || line@.len() == 0) ==> !more && *final(self) == *old(self),
            !(line@ == m_crlf() || line@.len() == 0) ==> {
                &&& more
                &&& final(self).headers@ == old(self).headers@ + line@
                &&& final(self).is_chunked == (old(self).is_chunked || starts_with_spec(
                    to_lower_spec(line@),
                    m_te_chunked(),
                ))
                &&& final(self).content_length == (if starts_with_spec(
                    to_lower_spec(line@),
                    m_cl_prefix(),
                ) {
                    cl_value_spec(line@)
                } else {
                    old(self).content_length
                })
            },
    {
        if line.len() == 0 || bytes_eq(line, crlf()) {
            return false;
        }
        let low = to_lower(line);
        if starts_with(low.as_slice(), cl_prefix()) {
            self.content_length = match split_once(line, ':' as u8) {
                Some((_k, v)) => {
                    let vt = trim(v);
                    match crate::bytes::parse_u64_dec(vt) {
                        Some(n) => {
                            if n <= usize::MAX as u64 {
                                n as usize
                            } else {
                                0
                            }
                        },
                        None => 0,
                    }
                },
                None => 0,
            };
        } else if starts_with(low.as_slice(), te_chunked()) {
            self.is_chunked = true;
        }
        self.headers.extend_from_slice(line);
        true
    }
}

/// What the body decoder needs next from the stream: one line, an exact count
/// of bytes, or nothing more.
#[derive(PartialEq, Eq, Structural, Clone, Copy, Debug)]
pub enum DecodeNeed {
    Line,
    Bytes(usize),
    Done,
}

/// Where the body decoder stands.
pub enum DecodeState {
    /// Expecting a hex chunk-size line.
    ChunkSize,
    /// Expecting exactly this many chunk bytes.
    ChunkData(usize),
    /// Expecting the CRLF line that trails a chunk.
    ChunkCrlf,
    /// Expecting exactly this many bytes of a content-length body.
    Fixed(usize),
    /// The body is complete.
    Done,
}

/// The incremental response-body decoder. Fed lines and byte runs exactly as
/// it asks for them, it accumulates the decoded body: either a fixed
/// content-length run, or hex-sized chunks concatenated until the zero-size
/// chunk. It asks for exactly the bytes the framing owes, leaving the stream
/// byte-exact at the response boundary.
pub struct BodyDecoder {
    pub state: DecodeState,
    pub body: Vec<u8>,
}

impl BodyDecoder {
    /// A decoder for one response body, chunked or of a fixed length.
    pub fn new(is_chunked: bool, content_length: usize) -> (r: BodyDecoder)
        ensures
            r.body@ == Seq::<u8>::empty(),
            is_chunked ==> r.state == DecodeState::ChunkSize,
            !is_chunked && content_length == 0 ==> r.state == DecodeState::Done,
            !is_chunked && content_length > 0 ==> r.state == DecodeState::Fixed(content_length),
    {
        let state = if is_chunked {
            DecodeState::ChunkSize
        } else if content_length == 0 {
            DecodeState::Done
        } else {
            DecodeState::Fixed(content_length)
        };
        BodyDecoder { state, body: Vec::new() }
    }

    /// What the decoder needs next.
    pub fn need(&self) -> (r: DecodeNeed)
        ensures
            r == spec_need(self.state),
    {
        match self.state {
            DecodeState::ChunkSize => DecodeNeed::Line,
            DecodeState::ChunkCrlf => DecodeNeed::Line,
            DecodeState::ChunkData(n) => DecodeNeed::Bytes(n),
            DecodeState::Fixed(n) => DecodeNeed::Bytes(n),
            DecodeState::Done => DecodeNeed::Done,
        }
    }

    /// Feed one raw line. On a chunk-size line, the trimmed text must read as
    /// a hexadecimal numeral: zero ends the body, anything else owes that many
    /// chunk bytes. The CRLF line after a chunk is consumed and ignored.
    pub fn feed_line(&mut self, line: &[u8]) -> (r: Result<(), HttpError>)
        requires
            spec_need(old(self).state) == DecodeNeed::Line,
        ensures
            final(self).body == old(self).body,
            match r {
                Ok(_) => match old(self).state {
                    DecodeState::ChunkCrlf => final(self).state == DecodeState::ChunkSize,
                    DecodeState::ChunkSize => {
                        &&& chunk_size_spec(line@) matches Some(n)
                        &&& (n == 0 ==> final(self).state == DecodeState::Done)
                        &&& (n > 0 ==> final(self).state == DecodeState::ChunkData(n))
                    },
                    _ => false,
                },
                Err(e) => {
                    &&& old(self).state is ChunkSize
                    &&& chunk_size_spec(line@) is None
                    &&& e@ == HttpErrorV::InvalidChunkSize(line@)
                    &&& final(self).state == old(self).state
                },
            },
    {
        match self.state {
            DecodeState::ChunkCrlf => {
                self.state = DecodeState::ChunkSize;
                Ok(())
            },
            DecodeState::ChunkSize => {
                let t = trim(line);
                match parse_u64_hex(t) {
                    Some(v) => {
                        if v > usize::MAX as u64 {
                            return Err(HttpError::InvalidChunkSize(vstd::slice::slice_to_vec(
                                line,
                            )));
                        }
                        if v == 0 {
                            self.state = DecodeState::Done;
                        } else {
                            self.state = DecodeState::ChunkData(v as usize);
                        }
                        Ok(())
                    },
                    None => Err(HttpError::InvalidChunkSize(vstd::slice::slice_to_vec(line))),
                }
            },
            _ => {
                proof {
                    assert(false);
                }
                Ok(())
            },
        }
    }

    /// Feed exactly the bytes the decoder asked for: a whole chunk, or the
    /// whole fixed body. They are appended to the decoded body.
    pub fn feed_bytes(&mut self, data: &[u8])
        requires
            spec_need(old(self).state) == DecodeNeed::Bytes(data@.len() as usize),
        ensures
            final(self).body@ == old(self).body@ + data@,
            old(self).state is ChunkData ==> final(self).state == DecodeState::ChunkCrlf,
            old(self).state is Fixed ==> final(self).state == DecodeState::Done,
    {
        self.body.extend_from_slice(data);
        match self.state {
            DecodeState::ChunkData(_) => {
                self.state = DecodeState::ChunkCrlf;
            },
            DecodeState::Fixed(_) => {
                self.state = DecodeState::Done;
            },
            _ => {
                proof {
                    assert(false);
                }
            },
        }
    }
}

/// What the decoder needs in a given state.
pub open spec fn spec_need(s: DecodeState) -> DecodeNeed {
    match s {
        DecodeState::ChunkSize => DecodeNeed::Line,
        DecodeState::ChunkCrlf => DecodeNeed::Line,
        DecodeState::ChunkData(n) => DecodeNeed::Bytes(n),
        DecodeState::Fixed(n) => DecodeNeed::Bytes(n),
        DecodeState::Done => DecodeNeed::Done,
    }
}

/// The chunk size a size line declares: its trimmed text as a hexadecimal
/// numeral, if it is one the machine can hold.
pub open spec fn chunk_size_spec(line: Seq<u8>) -> Option<usize> {
    match parse_hex_u64_spec(trim_spec(line)) {
        Some(v) => if v <= usize::MAX as u64 {
            Some(v as usize)
        } else {
            None
        },
        None => None,
    }
}

/// The lossy UTF-8 decoding of a byte string: what the bytes spell with every
/// invalid sequence replaced by the replacement character. A function of the
/// bytes alone.
pub uninterp spec fn utf8_lossy_of(s: Seq<u8>) -> Seq<u8>;

/// Relies on String::from_utf8_lossy: decodes bytes as UTF-8, replacing
/// invalid sequences with the replacement character; valid UTF-8 comes back
/// unchanged.
#[verifier::external_body]
fn utf8_lossy(b: &[u8]) -> (r: Vec<u8>)
    ensures
        r@ == utf8_lossy_of(b@),
        vstd::utf8::valid_utf8(b@) ==> r@ == b@,
{
    String::from_utf8_lossy(b).into_owned().into_bytes()
}

/// Close a decoded head and body back into one raw buffer: the header lines
/// (each already carrying its CRLF) and one more CRLF as the blank-line
/// boundary, then the body decoded as UTF-8 with lossy replacement of invalid
/// sequences.
pub fn assemble_raw(headers: &[u8], body: &[u8]) -> (r: Vec<u8>)
    ensures
        r@ == headers@ + m_crlf() + utf8_lossy_of(body@),
        vstd::utf8::valid_utf8(body@) ==> r@ == headers@ + m_crlf() + body@,
{
    let mut r: Vec<u8> = Vec::new();
    r.extend_from_slice(headers);
    r.extend_from_slice(crlf());
    let decoded = utf8_lossy(body);
    r.extend_from_slice(decoded.as_slice());
    proof {
        assert(r@ =~= headers@ + m_crlf() + utf8_lossy_of(body@));
        if vstd::utf8::valid_utf8(body@) {
            assert(r@ =~= headers@ + m_crlf() + body@);
        }
    }
    r
}

} // verus!
