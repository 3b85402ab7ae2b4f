//! The response side of the codec: the `Response` type, the HTTP response
//! parser, the chunked transfer decoder and the socket-address validator,
//! each specified by a functional model over byte sequences.

use vstd::prelude::*;
use vstd::string::StrSliceExecFns;

use crate::errors::DockerApiError;
use crate::strutil::bytes_eq;
use crate::strutil::copy_byte_range;
use crate::strutil::digits_ok;
use crate::strutil::find_byte;
use crate::strutil::find_crlfcrlf;
use crate::strutil::find_pair;
use crate::strutil::find_byte_spec;
use crate::strutil::find_crlfcrlf_spec;
use crate::strutil::find_pair_spec;
use crate::strutil::lemma_find_byte_spec;
use crate::strutil::lemma_find_crlfcrlf_spec;
use crate::strutil::lemma_find_pair_spec;
use crate::strutil::parse_radix;
use crate::strutil::radix_value;
use crate::strutil::trim_str;
use crate::strutil::utf8_to_string;

verus! {

/// A minimal HTTP response: the numeric status code from the status line and
/// the chunk-decoded, whitespace-trimmed body text.
#[derive(Debug, PartialEq, Eq)]
pub struct Response {
    pub status_code: usize,
    pub body: String,
}

/// The mathematical value of a `Response`.
pub struct ResponseModel {
    pub status_code: nat,
    pub body: Seq<char>,
}

impl View for Response {
    type V = ResponseModel;

    open spec fn view(&self) -> ResponseModel {
        ResponseModel { status_code: self.status_code as nat, body: self.body@ }
    }
}

/// One step of chunked transfer decoding, with the cursor standing at the
/// start of a size line. The bytes up to the next CR LF are a hexadecimal
/// chunk size; size zero ends the body; otherwise exactly that many bytes are
/// appended to the accumulator and the cursor moves past them and the CR LF
/// that follows them. Every framing fault is `ChunkFramingError`.
pub open spec fn dechunk_from(s: Seq<u8>, cursor: nat, acc: Seq<u8>) -> Result<
    Seq<u8>,
    DockerApiError,
>
    decreases s.len() + 2 - cursor,
    via dechunk_from_decreases
{
    match find_pair_spec(s, cursor as int, 13, 10) {
        None => Err(DockerApiError::ChunkFramingError),
        Some(p) => {
            let digits = s.subrange(cursor as int, p);
            let size = radix_value(digits, 16);
            if !digits_ok(digits, 16) {
                Err(DockerApiError::ChunkFramingError)
            } else if size == 0 {
                Ok(acc)
            } else if p + 2 + size > s.len() {
                Err(DockerApiError::ChunkFramingError)
            } else {
                dechunk_from(s, (p + 2 + size + 2) as nat, acc + s.subrange(p + 2, p + 2 + size))
            }
        },
    }
}

#[via_fn]
proof fn dechunk_from_decreases(s: Seq<u8>, cursor: nat, acc: Seq<u8>) {
    lemma_find_pair_spec(s, cursor as int, 13, 10);
}

/// Chunked transfer decoding of a whole body buffer.
pub open spec fn dechunk_spec(s: Seq<u8>) -> Result<Seq<u8>, DockerApiError> {
    dechunk_from(s, 0, Seq::<u8>::empty())
}

/// The wire encoding of one chunk: its data length in lowercase hex, CR LF,
/// the data bytes, CR LF.
pub open spec fn encode_chunk(data: Seq<u8>) -> Seq<u8> {
    crate::strutil::canon_digits(data.len(), 16) + seq![13u8, 10u8] + data + seq![13u8, 10u8]
}

/// The wire encoding of a whole chunked body: each chunk in turn, then the
/// terminal zero-size chunk with its trailing CR LF.
pub open spec fn encode_chunked(chunks: Seq<Seq<u8>>) -> Seq<u8>
    decreases chunks.len(),
{
    if chunks.len() == 0 {
        seq![48u8, 13u8, 10u8, 13u8, 10u8]
    } else {
        encode_chunk(chunks.first()) + encode_chunked(chunks.drop_first())
    }
}

proof fn lemma_dechunk_encoded(s: Seq<u8>, cursor: nat, acc: Seq<u8>, chunks: Seq<Seq<u8>>)
    requires
        cursor <= s.len(),
        s.subrange(cursor as int, s.len() as int) == encode_chunked(chunks),
        forall|i: int| 0 <= i < chunks.len() ==> 0 < (#[trigger] chunks[i]).len() <= usize::MAX,
    ensures
        dechunk_from(s, cursor, acc) == Ok::<Seq<u8>, DockerApiError>(acc + chunks.flatten()),
    decreases chunks.len(),
{
    let rest = s.subrange(cursor as int, s.len() as int);
    if chunks.len() == 0 {
        assert(rest.len() == 5);
        assert(s[cursor as int] == 48 && s[cursor as int + 1] == 13 && s[cursor as int + 2] == 10) by {
            assert(rest[0] == 48 && rest[1] == 13 && rest[2] == 10);
        }
        crate::strutil::lemma_find_pair_at(s, cursor as int, cursor as int + 1, 13, 10);
        let digits = s.subrange(cursor as int, cursor as int + 1);
        assert(digits =~= seq![48u8]);
        assert(digits.drop_last() =~= Seq::<u8>::empty());
        assert(radix_value(Seq::<u8>::empty(), 16) == 0);
        assert(digits.last() == 48);
        assert(radix_value(digits, 16) == 0);
        assert(digits_ok(digits, 16));
        assert(chunks.flatten() =~= Seq::<u8>::empty());
        assert(acc + chunks.flatten() =~= acc);
    } else {
        let c0 = chunks.first();
        let tail_chunks = chunks.drop_first();
        let digits = crate::strutil::canon_digits(c0.len(), 16);
        crate::strutil::lemma_canon_digits(c0.len(), 16);
        let dlen = digits.len() as int;
        let size = c0.len() as int;
        let tail = encode_chunked(tail_chunks);
        assert(chunks[0] == c0);
        assert(rest == digits + seq![13u8, 10u8] + c0 + seq![13u8, 10u8] + tail);
        assert(rest.len() == dlen + 2 + size + 2 + tail.len());
        let c = cursor as int;
        // the size line's CR LF stands right after the hex digits
        assert(forall|j: int| 0 <= j < dlen ==> rest[j] == digits[j]);
        assert(forall|j: int|
            c <= j < c + dlen ==> crate::strutil::is_digit_base(#[trigger] s[j], 16)) by {
            assert(forall|j: int| c <= j < c + dlen ==> s[j] == rest[j - c]);
        }
        assert(forall|j: int| c <= j < c + dlen ==> (#[trigger] s[j]) != 13) by {
            assert(forall|j: int|
                c <= j < c + dlen ==> crate::strutil::digit_val(#[trigger] s[j]) < 16);
        }
        assert(s[c + dlen] == 13 && s[c + dlen + 1] == 10) by {
            assert(rest[dlen] == 13 && rest[dlen + 1] == 10);
        }
        crate::strutil::lemma_find_pair_at(s, c, c + dlen, 13, 10);
        assert(find_pair_spec(s, c, 13, 10) == Some(c + dlen));
        let spec_digits = s.subrange(c, c + dlen);
        assert(spec_digits =~= digits) by {
            assert(forall|j: int| 0 <= j < dlen ==> spec_digits[j] == rest[j]);
        }
        assert(digits_ok(digits, 16));
        assert(radix_value(digits, 16) == c0.len());
        let p = c + dlen;
        assert(p + 2 + size <= s.len());
        let data = s.subrange(p + 2, p + 2 + size);
        assert(data =~= c0) by {
            assert(forall|j: int| 0 <= j < size ==> data[j] == rest[dlen + 2 + j]);
            assert(forall|j: int| 0 <= j < size ==> rest[dlen + 2 + j] == c0[j]);
        }
        let cursor2 = (p + 2 + size + 2) as nat;
        assert(s.subrange(cursor2 as int, s.len() as int) =~= tail) by {
            assert(forall|j: int|
                0 <= j < tail.len() ==> s.subrange(cursor2 as int, s.len() as int)[j] == rest[dlen
                    + 2 + size + 2 + j]);
            assert(forall|j: int| 0 <= j < tail.len() ==> rest[dlen + 2 + size + 2 + j] == tail[j]);
        }
        assert(forall|i: int|
            0 <= i < tail_chunks.len() ==> 0 < (#[trigger] tail_chunks[i]).len() <= usize::MAX) by {
            assert(forall|i: int| 0 <= i < tail_chunks.len() ==> tail_chunks[i] == chunks[i + 1]);
        }
        lemma_dechunk_encoded(s, cursor2, acc + c0, tail_chunks);
        assert(dechunk_from(s, cursor, acc) == dechunk_from(s, cursor2, acc + data));
        assert(chunks.flatten() == c0 + tail_chunks.flatten());
        assert(acc + c0 + tail_chunks.flatten() =~= acc + chunks.flatten());
    }
}

/// The bytes of the `Transfer-Encoding` header name.
pub open spec fn te_key() -> Seq<u8> {
    vstd::utf8::encode_utf8("Transfer-Encoding"@)
}

/// The bytes of the `chunked` transfer-coding value.
pub open spec fn chunked_value() -> Seq<u8> {
    vstd::utf8::encode_utf8("chunked"@)
}

/// The lines of a header block read from offset `c`: the block split on
/// every CR LF.
pub open spec fn split_crlf_from(s: Seq<u8>, c: nat) -> Seq<Seq<u8>>
    decreases s.len() - c,
    via split_crlf_from_decreases
{
    match find_pair_spec(s, c as int, 13, 10) {
        None => seq![s.subrange(c as int, s.len() as int)],
        Some(p) => seq![s.subrange(c as int, p)] + split_crlf_from(s, (p + 2) as nat),
    }
}

#[via_fn]
proof fn split_crlf_from_decreases(s: Seq<u8>, c: nat) {
    lemma_find_pair_spec(s, c as int, 13, 10);
}

/// Name and value of one header line: the split at the first `": "`, if the
/// line has one.
pub open spec fn split_header_line(line: Seq<u8>) -> Option<(Seq<u8>, Seq<u8>)> {
    match find_pair_spec(line, 0, 58, 32) {
        None => None,
        Some(k) => Some((line.subrange(0, k), line.subrange(k + 2, line.len() as int))),
    }
}

/// The header map of a sequence of header lines. A later occurrence of a
/// name overwrites an earlier one (last wins); a line without `": "` is
/// passed over.
pub open spec fn headers_map_spec(lines: Seq<Seq<u8>>) -> Map<Seq<u8>, Seq<u8>>
    decreases lines.len(),
{
    if lines.len() == 0 {
        Map::empty()
    } else {
        let m = headers_map_spec(lines.drop_last());
        match split_header_line(lines.last()) {
            None => m,
            Some(nv) => m.insert(nv.0, nv.1),
        }
    }
}

/// The `Transfer-Encoding` value among the given header lines, if any.
pub open spec fn te_lookup(lines: Seq<Seq<u8>>) -> Option<Seq<u8>> {
    let m = headers_map_spec(lines);
    if m.contains_key(te_key()) {
        Some(m[te_key()])
    } else {
        None
    }
}

/// Whether the header lines ask for chunked transfer decoding: the
/// `Transfer-Encoding` header is present and its value is exactly `chunked`.
pub open spec fn is_chunked(lines: Seq<Seq<u8>>) -> bool {
    te_lookup(lines) == Some(chunked_value())
}

/// The status code of a status line, when the line splits into three
/// space-separated tokens `version`, `code` and `reason` and the code token
/// is a run of decimal digits that fits a `usize`.
pub open spec fn status_code_spec(line: Seq<u8>) -> Option<nat> {
    match find_byte_spec(line, 0, 32) {
        None => None,
        Some(s1) => match find_byte_spec(line, s1 + 1, 32) {
            None => None,
            Some(s2) => {
                let tok = line.subrange(s1 + 1, s2);
                if digits_ok(tok, 10) {
                    Some(radix_value(tok, 10))
                } else {
                    None
                }
            },
        },
    }
}

/// The full response parse. The first CR LF CR LF splits headers from body;
/// the header block must be valid UTF-8; the first header line yields the
/// status code; a `Transfer-Encoding: chunked` header (last occurrence wins)
/// routes the raw body through chunk decoding; the body must be valid UTF-8
/// and is trimmed of surrounding whitespace.
pub open spec fn parse_http_response_spec(s: Seq<u8>) -> Result<ResponseModel, DockerApiError> {
    match find_crlfcrlf_spec(s, 0) {
        None => Err(DockerApiError::MalformedResponse),
        Some(b) => {
            if !vstd::utf8::valid_utf8(s.subrange(0, b + 4)) {
                Err(DockerApiError::InvalidHeaderEncoding)
            } else {
                let lines = split_crlf_from(s.subrange(0, b), 0);
                match status_code_spec(lines[0]) {
                    None => Err(DockerApiError::InvalidStatusLine),
                    Some(code) => {
                        let raw = s.subrange(b + 4, s.len() as int);
                        let body_r = if is_chunked(lines.drop_first()) {
                            dechunk_spec(raw)
                        } else {
                            Ok(raw)
                        };
                        match body_r {
                            Err(e) => Err(e),
                            Ok(bb) => {
                                if !vstd::utf8::valid_utf8(bb) {
                                    Err(DockerApiError::InvalidBodyEncoding)
                                } else {
                                    Ok(
                                        ResponseModel {
                                            status_code: code,
                                            body: crate::strutil::trim_chars(
                                                vstd::utf8::decode_utf8(bb),
                                            ),
                                        },
                                    )
                                }
                            },
                        }
                    },
                }
            }
        },
    }
}

/// How an executable parse result realizes a model outcome: same error, or a
/// `Response` whose view is the model value.
pub open spec fn parse_result_matches(
    r: Result<Response, DockerApiError>,
    m: Result<ResponseModel, DockerApiError>,
) -> bool {
    match r {
        Ok(resp) => m matches Ok(model) && resp@ == model,
        Err(e) => m matches Err(f) && e == f,
    }
}

/// Position of the first `://` in `s` at an index `>= from`, if any.
pub open spec fn find_scheme_sep(s: Seq<char>, from: int) -> Option<int>
    decreases s.len() - from,
{
    if from + 3 > s.len() {
        None
    } else if s[from] == ':' && s[from + 1] == '/' && s[from + 2] == '/' {
        Some(from)
    } else {
        find_scheme_sep(s, from + 1)
    }
}

/// The characters of the one supported scheme name.
pub open spec fn unix_scheme() -> Seq<char> {
    seq!['u', 'n', 'i', 'x']
}

/// The socket path named by a connection address, when the address is valid:
/// either `unix://{path}` with exactly one `://`, or a bare path with no
/// `://` at all. An address with another scheme, or with a second `://`, is
/// rejected. (Whether the path names an existing socket is an I/O question
/// left to the caller that connects.)
pub open spec fn validate_address_spec(s: Seq<char>) -> Option<Seq<char>> {
    match find_scheme_sep(s, 0) {
        None => Some(s),
        Some(p) => {
            if find_scheme_sep(s, p + 3) is Some {
                None
            } else if s.subrange(0, p) == unix_scheme() {
                Some(s.subrange(p + 3, s.len() as int))
            } else {
                None
            }
        },
    }
}

/// First occurrence of `://` in `s` at a character index `>= from`.
fn find_scheme_sep_exec(s: &str, from: usize) -> (r: Option<usize>)
    ensures
        match r {
            Some(i) => find_scheme_sep(s@, from as int) == Some(i as int),
            None => find_scheme_sep(s@, from as int) is None,
        },
{
    let n = s.unicode_len();
    if n < 3 {
        return None;
    }
    let end = n - 2;
    let mut i: usize = from;
    while i < end
        invariant
            from <= i,
            end == n - 2,
            n == s@.len(),
            n >= 3,
            find_scheme_sep(s@, from as int) == find_scheme_sep(s@, i as int),
        decreases end - i,
    {
        if s.get_char(i) == ':' && s.get_char(i + 1) == '/' && s.get_char(i + 2) == '/' {
            return Some(i);
        }
        i = i + 1;
    }
    None
}

/// Validates a connection address: `unix://{path}` or a bare path, per
/// `validate_address_spec`. Returns the scheme and the path; the caller that
/// opens the connection still has to check that the path names a socket.
pub fn validate_unix_socket_address<'a>(address: &'a str) -> (r: Option<Vec<&'a str>>)
    ensures
        match r {
            Some(parts) => {
                &&& parts@.len() == 2
                &&& parts@[0]@ == unix_scheme()
                &&& validate_address_spec(address@) == Some(parts@[1]@)
            },
            None => validate_address_spec(address@) is None,
        },
{
    let n = address.unicode_len();
    let p = match find_scheme_sep_exec(address, 0) {
        Some(p) => p,
        None => {
            let mut parts: Vec<&str> = Vec::new();
            parts.push("unix");
            parts.push(address);
            proof {
                reveal_strlit("unix");
                assert(parts@[0]@ =~= unix_scheme());
            }
            return Some(parts);
        },
    };
    proof {
        lemma_find_scheme_sep(address@, 0);
    }
    if find_scheme_sep_exec(address, p + 3).is_some() {
        return None;
    }
    if p != 4 {
        proof {
            assert(address@.subrange(0, p as int).len() != unix_scheme().len());
        }
        return None;
    }
    if !(address.get_char(0) == 'u' && address.get_char(1) == 'n' && address.get_char(2) == 'i'
        && address.get_char(3) == 'x') {
        proof {
            assert(address@.subrange(0, 4)[0] == address@[0]);
            assert(address@.subrange(0, 4)[1] == address@[1]);
            assert(address@.subrange(0, 4)[2] == address@[2]);
            assert(address@.subrange(0, 4)[3] == address@[3]);
        }
        return None;
    }
    proof {
        assert(address@.subrange(0, 4) =~= unix_scheme());
    }
    let path = address.substring_char(p + 3, n);
    let mut parts: Vec<&str> = Vec::new();
    parts.push("unix");
    parts.push(path);
    proof {
        reveal_strlit("unix");
        assert(parts@[0]@ =~= unix_scheme());
    }
    Some(parts)
}

/// What a `find_scheme_sep` result means: a found index is in range with the
/// pattern at it.
proof fn lemma_find_scheme_sep(s: Seq<char>, from: int)
    requires
        0 <= from,
    ensures
        match find_scheme_sep(s, from) {
            Some(i) => from <= i && i + 3 <= s.len(),
            None => true,
        },
    decreases s.len() - from,
{
    if from + 3 > s.len() {
    } else if s[from] == ':' && s[from + 1] == '/' && s[from + 2] == '/' {
    } else {
        lemma_find_scheme_sep(s, from + 1);
    }
}

/// Determinism: two parse results that realize the model outcome of the same
/// byte buffer are the same response, or the same error.
pub proof fn lemma_parse_deterministic(
    s: Seq<u8>,
    r1: Result<Response, DockerApiError>,
    r2: Result<Response, DockerApiError>,
)
    requires
        parse_result_matches(r1, parse_http_response_spec(s)),
        parse_result_matches(r2, parse_http_response_spec(s)),
    ensures
        match (r1, r2) {
            (Ok(a), Ok(b)) => a@ == b@,
            (Err(e), Err(f)) => e == f,
            _ => false,
        },
{
}

/// Status extraction: a status line `{version} {code} {reason}` whose
/// version token holds no space and whose code is written in canonical
/// decimal digits parses to exactly that code, whatever the reason text.
pub proof fn lemma_status_code_extraction(version: Seq<u8>, n: nat, reason: Seq<u8>)
    requires
        forall|i: int| 0 <= i < version.len() ==> (#[trigger] version[i]) != 32,
        n <= usize::MAX,
    ensures
        status_code_spec(
            version + seq![32u8] + crate::strutil::canon_digits(n, 10) + seq![32u8] + reason,
        ) == Some(n),
{
    let digits = crate::strutil::canon_digits(n, 10);
    crate::strutil::lemma_canon_digits(n, 10);
    let line = version + seq![32u8] + digits + seq![32u8] + reason;
    let vlen = version.len() as int;
    let dlen = digits.len() as int;
    assert(line[vlen] == 32);
    assert(forall|j: int| 0 <= j < vlen ==> (#[trigger] line[j]) != 32) by {
        assert(forall|j: int| 0 <= j < vlen ==> line[j] == version[j]);
    }
    crate::strutil::lemma_find_byte_at(line, 0, vlen, 32);
    assert(forall|j: int|
        vlen + 1 <= j < vlen + 1 + dlen ==> crate::strutil::is_digit_base(#[trigger] line[j], 10))
        by {
        assert(forall|j: int| vlen + 1 <= j < vlen + 1 + dlen ==> line[j] == digits[j - vlen - 1]);
    }
    assert(forall|j: int| vlen + 1 <= j < vlen + 1 + dlen ==> (#[trigger] line[j]) != 32) by {
        assert(forall|j: int|
            vlen + 1 <= j < vlen + 1 + dlen ==> crate::strutil::digit_val(#[trigger] line[j]) < 10);
    }
    assert(line[vlen + 1 + dlen] == 32);
    crate::strutil::lemma_find_byte_at(line, vlen + 1, vlen + 1 + dlen, 32);
    let tok = line.subrange(vlen + 1, vlen + 1 + dlen);
    assert(tok =~= digits) by {
        assert(forall|j: int| 0 <= j < dlen ==> tok[j] == line[vlen + 1 + j]);
        assert(forall|j: int| 0 <= j < dlen ==> line[vlen + 1 + j] == digits[j]);
    }
    assert(digits_ok(digits, 10));
}

/// Round trip: a body assembled from any list of non-empty chunks, each with
/// its correct hexadecimal size line, and closed by the terminal zero chunk,
/// decodes back to exactly the concatenation of the chunks.
pub proof fn lemma_dechunk_round_trip(chunks: Seq<Seq<u8>>)
    requires
        forall|i: int| 0 <= i < chunks.len() ==> 0 < (#[trigger] chunks[i]).len() <= usize::MAX,
    ensures
        dechunk_spec(encode_chunked(chunks)) == Ok::<Seq<u8>, DockerApiError>(chunks.flatten()),
{
    let s = encode_chunked(chunks);
    assert(s.subrange(0, s.len() as int) =~= s);
    lemma_dechunk_encoded(s, 0, Seq::<u8>::empty(), chunks);
    assert(Seq::<u8>::empty() + chunks.flatten() =~= chunks.flatten());
}

impl Response {
    /// Parses a raw HTTP response buffer into a status code and a body text,
    /// exactly as `parse_http_response_spec` describes: boundary scan, UTF-8
    /// check of the header block, status line, header lines with the last
    /// `Transfer-Encoding` winning, chunk decoding when asked for, UTF-8
    /// decode of the body and a whitespace trim.
    pub fn parse_http_response(res: Vec<u8>) -> (r: Result<Response, DockerApiError>)
        ensures
            parse_result_matches(r, parse_http_response_spec(res@)),
    {
        let b = match find_crlfcrlf(&res, 0) {
            Some(b) => b,
            None => {
                return Err(DockerApiError::MalformedResponse);
            },
        };
        proof {
            lemma_find_crlfcrlf_spec(res@, 0);
        }
        let header_block = copy_byte_range(&res, 0, b + 4);
        match utf8_to_string(header_block) {
            Some(_) => {},
            None => {
                return Err(DockerApiError::InvalidHeaderEncoding);
            },
        }
        let header = copy_byte_range(&res, 0, b);
        let ghost lines = split_crlf_from(header@, 0);
        let status_end = match find_pair(&header, 0, 13, 10) {
            Some(p) => p,
            None => header.len(),
        };
        proof {
            lemma_find_pair_spec(header@, 0, 13, 10);
            assert(lines[0] =~= header@.subrange(0, status_end as int));
        }
        let status_line = copy_byte_range(&header, 0, status_end);
        let s1 = match find_byte(&status_line, 0, 32) {
            Some(i) => i,
            None => {
                return Err(DockerApiError::InvalidStatusLine);
            },
        };
        proof {
            lemma_find_byte_spec(status_line@, 0, 32);
        }
        let s2 = match find_byte(&status_line, s1 + 1, 32) {
            Some(i) => i,
            None => {
                return Err(DockerApiError::InvalidStatusLine);
            },
        };
        proof {
            lemma_find_byte_spec(status_line@, s1 as int + 1, 32);
        }
        let code = match parse_radix(&status_line, s1 + 1, s2, 10) {
            Some(c) => c,
            None => {
                return Err(DockerApiError::InvalidStatusLine);
            },
        };
        assert(status_code_spec(lines[0]) == Some(code as nat));
        // scan the header lines, keeping the last Transfer-Encoding value
        let ghost hlines = lines.drop_first();
        let mut te_val: Option<Vec<u8>> = None;
        if status_end < header.len() {
            let mut c: usize = status_end + 2;
            let ghost mut k: int = 1;
            proof {
                assert(lines.subrange(0, 1) =~= seq![lines[0]]);
                assert(lines =~= lines.subrange(0, 1) + split_crlf_from(header@, c as nat));
                assert(lines.subrange(1, 1) =~= Seq::<Seq<u8>>::empty());
                assert(headers_map_spec(lines.subrange(1, 1)) == Map::<Seq<u8>, Seq<u8>>::empty());
            }
            loop
                invariant_except_break
                    lines == lines.subrange(0, k) + split_crlf_from(header@, c as nat),
                invariant
                    c <= header.len(),
                    1 <= k <= lines.len(),
                    lines == split_crlf_from(header@, 0),
                    match te_val {
                        Some(v) => te_lookup(lines.subrange(1, k)) == Some(v@),
                        None => te_lookup(lines.subrange(1, k)) is None,
                    },
                ensures
                    k == lines.len(),
                    match te_val {
                        Some(v) => te_lookup(lines.subrange(1, k)) == Some(v@),
                        None => te_lookup(lines.subrange(1, k)) is None,
                    },
                decreases header@.len() - c,
            {
                let pair = find_pair(&header, c, 13, 10);
                proof {
                    lemma_find_pair_spec(header@, c as int, 13, 10);
                }
                let (line, next_c, is_last): (Vec<u8>, usize, bool) = match pair {
                    Some(p) => (copy_byte_range(&header, c, p), p + 2, false),
                    None => (copy_byte_range(&header, c, header.len()), header.len(), true),
                };
                proof {
                    if is_last {
                        assert(split_crlf_from(header@, c as nat) =~= seq![line@]);
                        assert(lines[k] == line@);
                        assert(k + 1 == lines.len());
                    } else {
                        assert(split_crlf_from(header@, c as nat) =~= seq![line@]
                            + split_crlf_from(header@, next_c as nat));
                        assert(lines[k] == line@);
                    }
                }
                match find_pair(&line, 0, 58, 32) {
                    Some(sep) => {
                        proof {
                            lemma_find_pair_spec(line@, 0, 58, 32);
                        }
                        let value = copy_byte_range(&line, sep + 2, line.len());
                        let name = copy_byte_range(&line, 0, sep);
                        assert(split_header_line(line@) == Some((name@, value@)));
                        if bytes_eq(&name, "Transfer-Encoding".as_bytes()) {
                            assert(name@ == te_key());
                            te_val = Some(value);
                        } else {
                            assert(name@ != te_key());
                        }
                    },
                    None => {
                        assert(split_header_line(line@) is None);
                    },
                }
                proof {
                    assert(lines.subrange(1, k + 1).drop_last() =~= lines.subrange(1, k));
                    assert(lines.subrange(1, k + 1).last() == lines[k]);
                    assert(lines.subrange(0, k + 1) =~= lines.subrange(0, k) + seq![lines[k]]);
                    if !is_last {
                        assert(lines =~= lines.subrange(0, k + 1) + split_crlf_from(
                            header@,
                            next_c as nat,
                        ));
                    } else {
                        assert(lines.subrange(0, k + 1) =~= lines);
                    }
                    k = k + 1;
                }
                if is_last {
                    break ;
                }
                c = next_c;
            }
            proof {
                assert(lines.subrange(1, lines.len() as int) =~= hlines);
            }
        } else {
            proof {
                assert(lines =~= seq![header@.subrange(0, header@.len() as int)]);
                assert(hlines =~= Seq::<Seq<u8>>::empty());
                assert(headers_map_spec(hlines) == Map::<Seq<u8>, Seq<u8>>::empty());
            }
        }
        let chunked = match &te_val {
            Some(v) => bytes_eq(v, "chunked".as_bytes()),
            None => false,
        };
        assert(chunked == is_chunked(hlines));
        let raw = copy_byte_range(&res, b + 4, res.len());
        let body_bytes = if chunked {
            match Response::parse_chunk(raw) {
                Ok(x) => x,
                Err(e) => {
                    return Err(e);
                },
            }
        } else {
            raw
        };
        let ghost bb = body_bytes@;
        let body_str = match utf8_to_string(body_bytes) {
            Some(s) => s,
            None => {
                return Err(DockerApiError::InvalidBodyEncoding);
            },
        };
        proof {
            vstd::utf8::encode_utf8_decode_utf8(body_str@);
            assert(body_str@ == vstd::utf8::decode_utf8(bb));
        }
        let trimmed = trim_str(body_str.as_str());
        Ok(Response { status_code: code, body: trimmed })
    }

    /// Decodes a body sent with `Transfer-Encoding: chunked`: hex-size-
    /// prefixed segments, terminated by a zero-size segment. Truncated
    /// chunks and malformed size lines are reported, never read past.
    pub fn parse_chunk(body: Vec<u8>) -> (r: Result<Vec<u8>, DockerApiError>)
        ensures
            match r {
                Ok(out) => dechunk_spec(body@) == Ok::<Seq<u8>, DockerApiError>(out@),
                Err(e) => dechunk_spec(body@) == Err::<Seq<u8>, DockerApiError>(e),
            },
    {
        let mut buf: Vec<u8> = Vec::new();
        let mut cursor: usize = 0;
        loop
            invariant
                cursor <= body.len(),
                dechunk_from(body@, cursor as nat, buf@) == dechunk_spec(body@),
            decreases body@.len() + 2 - cursor,
        {
            let p = match find_pair(&body, cursor, 13, 10) {
                Some(p) => p,
                None => {
                    return Err(DockerApiError::ChunkFramingError);
                },
            };
            proof {
                lemma_find_pair_spec(body@, cursor as int, 13, 10);
            }
            let size = match parse_radix(&body, cursor, p, 16) {
                Some(size) => size,
                None => {
                    return Err(DockerApiError::ChunkFramingError);
                },
            };
            if size == 0 {
                return Ok(buf);
            }
            let data_start = p + 2;
            if size > body.len() - data_start {
                return Err(DockerApiError::ChunkFramingError);
            }
            let after = data_start + size;
            if body.len() - after < 2 {
                proof {
                    let sp_acc = buf@ + body@.subrange(p + 2, p + 2 + size);
                    assert(find_pair_spec(body@, after + 2, 13, 10) is None);
                    assert(dechunk_from(body@, (after + 2) as nat, sp_acc) == Err::<
                        Seq<u8>,
                        DockerApiError,
                    >(DockerApiError::ChunkFramingError));
                    assert(dechunk_from(body@, cursor as nat, buf@) == dechunk_from(
                        body@,
                        (after + 2) as nat,
                        sp_acc,
                    ));
                }
                return Err(DockerApiError::ChunkFramingError);
            }
            let mut chunk = copy_byte_range(&body, data_start, data_start + size);
            buf.append(&mut chunk);
            cursor = after + 2;
        }
    }
}

} // verus!
