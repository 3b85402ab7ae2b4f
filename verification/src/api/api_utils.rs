//! The request formatter: a pure function from an endpoint/method/body
//! triple to the request text that goes on the wire. GET and POST are the
//! only supported methods, matched without regard to ASCII case; every
//! request carries the fixed API version tag `v1.37` in its `Host` header.

use vstd::prelude::*;
use vstd::string::StrSliceExecFns;
use vstd::string::StringExecFns;

use crate::strutil::canon_digit;
use crate::strutil::canon_digits;
use crate::strutil::lemma_canon_digits;

verus! {

/// ASCII lowercasing of one byte.
pub open spec fn lower_byte(b: u8) -> u8 {
    if 65 <= b <= 90 {
        (b + 32) as u8
    } else {
        b
    }
}

/// Whether the bytes `m` spell the word `word` (given in lowercase), with
/// ASCII letters compared without regard to case.
pub open spec fn eq_ignore_ascii_case_bytes(m: Seq<u8>, word: Seq<u8>) -> bool {
    m.len() == word.len() && forall|i: int|
        0 <= i < m.len() ==> lower_byte(#[trigger] m[i]) == word[i]
}

/// Whether the method string `m` spells `word` (a lowercase word), compared
/// without regard to ASCII case.
fn method_matches(m: &str, word: &str) -> (r: bool)
    ensures
        r == eq_ignore_ascii_case_bytes(
            vstd::utf8::encode_utf8(m@),
            vstd::utf8::encode_utf8(word@),
        ),
{
    let mb = m.as_bytes();
    let wb = word.as_bytes();
    if mb.len() != wb.len() {
        return false;
    }
    let n = mb.len();
    let mut i: usize = 0;
    while i < n
        invariant
            i <= n,
            n == mb@.len() == wb@.len(),
            mb@ == vstd::utf8::encode_utf8(m@),
            wb@ == vstd::utf8::encode_utf8(word@),
            forall|j: int| 0 <= j < i ==> lower_byte(#[trigger] mb@[j]) == wb@[j],
        decreases n - i,
    {
        let b = mb[i];
        let low: u8 = if 65 <= b && b <= 90 {
            b + 32
        } else {
            b
        };
        if low != wb[i] {
            return false;
        }
        i = i + 1;
    }
    true
}

/// The decimal digits of `n`, as characters.
pub open spec fn dec_digits_chars(n: nat) -> Seq<char> {
    canon_digits(n, 10).map_values(|b: u8| b as char)
}

/// The one-character string of a decimal digit.
fn digit_str(d: usize) -> (r: &'static str)
    requires
        d < 10,
    ensures
        r@ == seq![canon_digit(d as nat) as char],
{
    proof {
        reveal_strlit("0");
        reveal_strlit("1");
        reveal_strlit("2");
        reveal_strlit("3");
        reveal_strlit("4");
        reveal_strlit("5");
        reveal_strlit("6");
        reveal_strlit("7");
        reveal_strlit("8");
        reveal_strlit("9");
    }
    match d {
        0 => "0",
        1 => "1",
        2 => "2",
        3 => "3",
        4 => "4",
        5 => "5",
        6 => "6",
        7 => "7",
        8 => "8",
        _ => "9",
    }
}

/// The decimal rendering of `n`, most significant digit first.
fn usize_to_dec_string(n: usize) -> (r: String)
    ensures
        r@ == dec_digits_chars(n as nat),
    decreases n,
{
    proof {
        lemma_canon_digits(n as nat, 10);
    }
    if n < 10 {
        let r = String::from_str(digit_str(n));
        proof {
            assert(r@ =~= dec_digits_chars(n as nat));
        }
        r
    } else {
        let mut head = usize_to_dec_string(n / 10);
        head.append(digit_str(n % 10));
        proof {
            assert(canon_digits(n as nat, 10) == canon_digits((n / 10) as nat, 10).push(
                canon_digit((n % 10) as nat),
            ));
            assert(head@ =~= dec_digits_chars(n as nat));
        }
        head
    }
}

/// The request text for an endpoint/method/body triple, when the method is
/// supported. A GET takes the body as a literal query-string suffix of the
/// endpoint and sends no message body; a POST declares the body's length in
/// bytes (not characters) in `Content-Length` and sends the body verbatim.
/// (The length is read at machine-word width, which is what it always is for
/// a string held in memory.)
pub open spec fn format_request_spec(
    endpoint: Seq<char>,
    method: Seq<char>,
    body: Seq<char>,
) -> Option<Seq<char>> {
    let m = vstd::utf8::encode_utf8(method);
    if eq_ignore_ascii_case_bytes(m, vstd::utf8::encode_utf8("get"@)) {
        Some("GET "@ + endpoint + body + " HTTP/1.1\r\nHost: v1.37\r\n\r\n"@)
    } else if eq_ignore_ascii_case_bytes(m, vstd::utf8::encode_utf8("post"@)) {
        Some(
            "POST "@ + endpoint + " HTTP/1.1\r\nHost: v1.37\r\nContent-Length: "@
                + dec_digits_chars((vstd::utf8::encode_utf8(body).len() as usize) as nat)
                + "\r\nContent-Type: application/json\r\n\r\n"@ + body + "\r\n\r\n"@,
        )
    } else {
        None
    }
}

/// Formats the API request that goes on the wire for the given endpoint,
/// method and body, exactly as `format_request_spec` describes; a method
/// other than GET or POST yields `None`.
pub fn get_formatted_api_request(api_endpoint: &str, method: &str, body: &str) -> (r: Option<
    String,
>)
    ensures
        match r {
            Some(s) => format_request_spec(api_endpoint@, method@, body@) == Some(s@),
            None => format_request_spec(api_endpoint@, method@, body@) is None,
        },
{
    if method_matches(method, "get") {
        let mut s = String::from_str("GET ");
        s.append(api_endpoint);
        s.append(body);
        s.append(" HTTP/1.1\r\nHost: v1.37\r\n\r\n");
        proof {
            assert(s@ =~= "GET "@ + api_endpoint@ + body@ + " HTTP/1.1\r\nHost: v1.37\r\n\r\n"@);
        }
        Some(s)
    } else if method_matches(method, "post") {
        let mut s = String::from_str("POST ");
        s.append(api_endpoint);
        s.append(" HTTP/1.1\r\nHost: v1.37\r\nContent-Length: ");
        let len_str = usize_to_dec_string(body.len());
        s.append(len_str.as_str());
        s.append("\r\nContent-Type: application/json\r\n\r\n");
        s.append(body);
        s.append("\r\n\r\n");
        proof {
            assert(s@ =~= "POST "@ + api_endpoint@ + " HTTP/1.1\r\nHost: v1.37\r\nContent-Length: "@
                + dec_digits_chars((vstd::utf8::encode_utf8(body@).len() as usize) as nat)
                + "\r\nContent-Type: application/json\r\n\r\n"@ + body@ + "\r\n\r\n"@);
        }
        Some(s)
    } else {
        None
    }
}

} // verus!
