//! Byte- and character-level helpers shared by the request formatter and the
//! response parser: first-occurrence scans, decimal and hexadecimal digit
//! runs, whitespace trimming and UTF-8 decoding.

use vstd::prelude::*;
use vstd::string::StrSliceExecFns;
use vstd::string::StringExecFns;

verus! {

/// Position of the first occurrence of the byte `b` in `s` at an index
/// `>= from`, if any.
pub open spec fn find_byte_spec(s: Seq<u8>, from: int, b: u8) -> Option<int>
    decreases s.len() - from,
{
    if from + 1 > s.len() {
        None
    } else if s[from] == b {
        Some(from)
    } else {
        find_byte_spec(s, from + 1, b)
    }
}

/// Position of the first occurrence of the two-byte pattern `a b` in `s` at
/// an index `>= from`, if any.
pub open spec fn find_pair_spec(s: Seq<u8>, from: int, a: u8, b: u8) -> Option<int>
    decreases s.len() - from,
{
    if from + 2 > s.len() {
        None
    } else if s[from] == a && s[from + 1] == b {
        Some(from)
    } else {
        find_pair_spec(s, from + 1, a, b)
    }
}

/// Position of the first occurrence of CR LF CR LF in `s` at an index
/// `>= from`, if any: the boundary between an HTTP header block and the body.
pub open spec fn find_crlfcrlf_spec(s: Seq<u8>, from: int) -> Option<int>
    decreases s.len() - from,
{
    if from + 4 > s.len() {
        None
    } else if s[from] == 13 && s[from + 1] == 10 && s[from + 2] == 13 && s[from + 3] == 10 {
        Some(from)
    } else {
        find_crlfcrlf_spec(s, from + 1)
    }
}

/// What a `find_byte_spec` result means: a found index is the first match at
/// or after `from`, and `None` means there is no match at all.
pub proof fn lemma_find_byte_spec(s: Seq<u8>, from: int, b: u8)
    requires
        0 <= from,
    ensures
        match find_byte_spec(s, from, b) {
            Some(i) => {
                &&& from <= i < s.len()
                &&& s[i] == b
                &&& forall|j: int| from <= j < i ==> s[j] != b
            },
            None => forall|j: int| from <= j < s.len() ==> s[j] != b,
        },
    decreases s.len() - from,
{
    if from + 1 > s.len() {
    } else if s[from] == b {
    } else {
        lemma_find_byte_spec(s, from + 1, b);
    }
}

/// What a `find_pair_spec` result means: a found index is the first match at
/// or after `from`, and `None` means there is no match at all.
pub proof fn lemma_find_pair_spec(s: Seq<u8>, from: int, a: u8, b: u8)
    requires
        0 <= from,
    ensures
        match find_pair_spec(s, from, a, b) {
            Some(i) => {
                &&& from <= i
                &&& i + 2 <= s.len()
                &&& s[i] == a && s[i + 1] == b
                &&& forall|j: int| from <= j < i ==> !(#[trigger] s[j] == a && s[j + 1] == b)
            },
            None => forall|j: int| from <= j && j + 2 <= s.len() ==> !(#[trigger] s[j] == a && s[j + 1] == b),
        },
    decreases s.len() - from,
{
    if from + 2 > s.len() {
    } else if s[from] == a && s[from + 1] == b {
    } else {
        lemma_find_pair_spec(s, from + 1, a, b);
    }
}

/// What a `find_crlfcrlf_spec` result means: a found index is the first match
/// at or after `from`, and `None` means there is no match at all.
pub proof fn lemma_find_crlfcrlf_spec(s: Seq<u8>, from: int)
    requires
        0 <= from,
    ensures
        match find_crlfcrlf_spec(s, from) {
            Some(i) => {
                &&& from <= i
                &&& i + 4 <= s.len()
                &&& s[i] == 13 && s[i + 1] == 10 && s[i + 2] == 13 && s[i + 3] == 10
                &&& forall|j: int|
                    from <= j < i ==> !(#[trigger] s[j] == 13 && s[j + 1] == 10 && s[j + 2] == 13
                        && s[j + 3] == 10)
            },
            None => forall|j: int|
                from <= j && j + 4 <= s.len() ==> !(#[trigger] s[j] == 13 && s[j + 1] == 10 && s[j
                    + 2] == 13 && s[j + 3] == 10),
        },
    decreases s.len() - from,
{
    if from + 4 > s.len() {
    } else if s[from] == 13 && s[from + 1] == 10 && s[from + 2] == 13 && s[from + 3] == 10 {
    } else {
        lemma_find_crlfcrlf_spec(s, from + 1);
    }
}

/// A byte match at `k` with no match before it pins down the result of
/// `find_byte_spec`.
pub proof fn lemma_find_byte_at(s: Seq<u8>, from: int, k: int, b: u8)
    requires
        0 <= from <= k,
        k < s.len(),
        s[k] == b,
        forall|j: int| from <= j < k ==> (#[trigger] s[j]) != b,
    ensures
        find_byte_spec(s, from, b) == Some(k),
    decreases k - from,
{
    if from == k {
    } else {
        lemma_find_byte_at(s, from + 1, k, b);
    }
}

/// A two-byte pattern match at `k` with no match before it pins down the
/// result of `find_pair_spec`.
pub proof fn lemma_find_pair_at(s: Seq<u8>, from: int, k: int, a: u8, b: u8)
    requires
        0 <= from <= k,
        k + 2 <= s.len(),
        s[k] == a,
        s[k + 1] == b,
        forall|j: int| from <= j < k ==> !(#[trigger] s[j] == a && s[j + 1] == b),
    ensures
        find_pair_spec(s, from, a, b) == Some(k),
    decreases k - from,
{
    if from == k {
    } else {
        lemma_find_pair_at(s, from + 1, k, a, b);
    }
}

/// First occurrence of the byte `b` in `v` at an index `>= from`.
pub fn find_byte(v: &Vec<u8>, from: usize, b: u8) -> (r: Option<usize>)
    ensures
        match r {
            Some(i) => find_byte_spec(v@, from as int, b) == Some(i as int),
            None => find_byte_spec(v@, from as int, b) is None,
        },
{
    let mut i: usize = from;
    while i < v.len()
        invariant
            from <= i,
            find_byte_spec(v@, from as int, b) == find_byte_spec(v@, i as int, b),
        decreases v.len() - i,
    {
        if v[i] == b {
            return Some(i);
        }
        i = i + 1;
    }
    None
}

/// First occurrence of the two-byte pattern `a b` in `v` at an index
/// `>= from`.
pub fn find_pair(v: &Vec<u8>, from: usize, a: u8, b: u8) -> (r: Option<usize>)
    ensures
        match r {
            Some(i) => find_pair_spec(v@, from as int, a, b) == Some(i as int),
            None => find_pair_spec(v@, from as int, a, b) is None,
        },
{
    if v.len() < 2 {
        return None;
    }
    let end = v.len() - 1;
    let mut i: usize = from;
    while i < end
        invariant
            from <= i,
            end == v.len() - 1,
            v.len() >= 2,
            find_pair_spec(v@, from as int, a, b) == find_pair_spec(v@, i as int, a, b),
        decreases end - i,
    {
        if v[i] == a && v[i + 1] == b {
            return Some(i);
        }
        i = i + 1;
    }
    None
}

/// First occurrence of CR LF CR LF in `v` at an index `>= from`.
pub fn find_crlfcrlf(v: &Vec<u8>, from: usize) -> (r: Option<usize>)
    ensures
        match r {
            Some(i) => find_crlfcrlf_spec(v@, from as int) == Some(i as int),
            None => find_crlfcrlf_spec(v@, from as int) is None,
        },
{
    if v.len() < 4 {
        return None;
    }
    let end = v.len() - 3;
    let mut i: usize = from;
    while i < end
        invariant
            from <= i,
            end == v.len() - 3,
            v.len() >= 4,
            find_crlfcrlf_spec(v@, from as int) == find_crlfcrlf_spec(v@, i as int),
        decreases end - i,
    {
        if v[i] == 13 && v[i + 1] == 10 && v[i + 2] == 13 && v[i + 3] == 10 {
            return Some(i);
        }
        i = i + 1;
    }
    None
}

/// A fresh vector holding the bytes of `v` from `start` (inclusive) to `end`
/// (exclusive).
pub fn copy_byte_range(v: &Vec<u8>, start: usize, end: usize) -> (r: Vec<u8>)
    requires
        start <= end <= v.len(),
    ensures
        r@ == v@.subrange(start as int, end as int),
{
    let mut out: Vec<u8> = Vec::new();
    let mut i: usize = start;
    while i < end
        invariant
            start <= i <= end <= v.len(),
            out@ == v@.subrange(start as int, i as int),
        decreases end - i,
    {
        out.push(v[i]);
        assert(out@ =~= v@.subrange(start as int, (i + 1) as int));
        i = i + 1;
    }
    out
}

/// Whether the contents of `v` equal the contents of the slice `w`.
pub fn bytes_eq(v: &Vec<u8>, w: &[u8]) -> (r: bool)
    ensures
        r == (v@ == w@),
{
    if v.len() != w.len() {
        assert(v@ != w@) by {
            assert(v@.len() != w@.len());
        }
        return false;
    }
    let n = v.len();
    let mut i: usize = 0;
    while i < n
        invariant
            i <= n,
            n == v@.len() == w@.len(),
            forall|j: int| 0 <= j < i ==> v@[j] == w@[j],
        decreases n - i,
    {
        if v[i] != w[i] {
            return false;
        }
        i = i + 1;
    }
    assert(v@ =~= w@);
    true
}

/// The Unicode `White_Space` code points, the characters that
/// `char::is_whitespace` recognizes: horizontal tab through carriage return,
/// space, next line, no-break space, ogham space mark, the en-quad through
/// hair-space block, line and paragraph separators, narrow no-break space,
/// medium mathematical space, and ideographic space.
pub open spec fn is_ws_char(c: char) -> bool {
    let u = c as u32;
    (9 <= u && u <= 13) || u == 32 || u == 0x85 || u == 0xa0 || u == 0x1680 || (0x2000 <= u && u
        <= 0x200a) || u == 0x2028 || u == 0x2029 || u == 0x202f || u == 0x205f || u == 0x3000
}

/// Whether `c` is a Unicode whitespace character.
pub fn is_whitespace_char(c: char) -> (r: bool)
    ensures
        r == is_ws_char(c),
{
    let u = c as u32;
    (9 <= u && u <= 13) || u == 32 || u == 0x85 || u == 0xa0 || u == 0x1680 || (0x2000 <= u && u
        <= 0x200a) || u == 0x2028 || u == 0x2029 || u == 0x202f || u == 0x205f || u == 0x3000
}

/// `s` with leading whitespace removed.
pub open spec fn trim_front(s: Seq<char>) -> Seq<char>
    decreases s.len(),
{
    if s.len() > 0 && is_ws_char(s.first()) {
        trim_front(s.drop_first())
    } else {
        s
    }
}

/// `s` with trailing whitespace removed.
pub open spec fn trim_back(s: Seq<char>) -> Seq<char>
    decreases s.len(),
{
    if s.len() > 0 && is_ws_char(s.last()) {
        trim_back(s.drop_last())
    } else {
        s
    }
}

/// `s` with leading and trailing whitespace removed.
pub open spec fn trim_chars(s: Seq<char>) -> Seq<char> {
    trim_back(trim_front(s))
}

/// Dropping a whitespace-only prefix does not change `trim_front`.
proof fn lemma_trim_front_skip(s: Seq<char>, i: int)
    requires
        0 <= i <= s.len(),
        forall|j: int| 0 <= j < i ==> is_ws_char(#[trigger] s[j]),
    ensures
        trim_front(s) == trim_front(s.subrange(i, s.len() as int)),
    decreases i,
{
    if i == 0 {
        assert(s.subrange(0, s.len() as int) =~= s);
    } else {
        let t = s.drop_first();
        assert(is_ws_char(s.first()));
        lemma_trim_front_skip(t, i - 1);
        assert(t.subrange(i - 1, t.len() as int) =~= s.subrange(i, s.len() as int));
    }
}

/// Dropping a whitespace-only suffix does not change `trim_back`.
proof fn lemma_trim_back_skip(s: Seq<char>, k: int)
    requires
        0 <= k <= s.len(),
        forall|j: int| k <= j < s.len() ==> is_ws_char(#[trigger] s[j]),
    ensures
        trim_back(s) == trim_back(s.subrange(0, k)),
    decreases s.len() - k,
{
    if k == s.len() {
        assert(s.subrange(0, s.len() as int) =~= s);
    } else {
        let t = s.drop_last();
        assert(is_ws_char(s.last()));
        lemma_trim_back_skip(t, k);
        assert(t.subrange(0, k) =~= s.subrange(0, k));
        assert(t =~= s.subrange(0, s.len() - 1));
    }
}

/// The text of `s` with surrounding whitespace removed, as `trim_chars`
/// describes it.
pub fn trim_str(s: &str) -> (r: String)
    ensures
        r@ == trim_chars(s@),
{
    let n = s.unicode_len();
    let mut i: usize = 0;
    loop
        invariant
            0 <= i <= n,
            n == s@.len(),
            forall|j: int| 0 <= j < i ==> is_ws_char(#[trigger] s@[j]),
        ensures
            0 <= i <= n,
            forall|j: int| 0 <= j < i ==> is_ws_char(#[trigger] s@[j]),
            i == n || !is_ws_char(s@[i as int]),
        decreases n - i,
    {
        if i >= n {
            break ;
        }
        if !is_whitespace_char(s.get_char(i)) {
            break ;
        }
        i = i + 1;
    }
    let mut j: usize = n;
    loop
        invariant
            i <= j <= n,
            n == s@.len(),
            forall|k: int| j <= k < n ==> is_ws_char(#[trigger] s@[k]),
        ensures
            i <= j <= n,
            forall|k: int| j <= k < n ==> is_ws_char(#[trigger] s@[k]),
            j == i || !is_ws_char(s@[j - 1]),
        decreases j - i,
    {
        if j <= i {
            break ;
        }
        if !is_whitespace_char(s.get_char(j - 1)) {
            break ;
        }
        j = j - 1;
    }
    let sub = s.substring_char(i, j);
    proof {
        let t = s@.subrange(i as int, n as int);
        lemma_trim_front_skip(s@, i as int);
        if i < n {
            assert(t.first() == s@[i as int]);
            assert(trim_front(t) == t);
        }
        lemma_trim_back_skip(t, j - i);
        assert(t.subrange(0, j - i) =~= s@.subrange(i as int, j as int));
        if j > i {
            assert(s@.subrange(i as int, j as int).last() == s@[j - 1]);
            assert(!is_ws_char(s@[j - 1]));
            assert(trim_back(s@.subrange(i as int, j as int)) == s@.subrange(i as int, j as int));
        } else {
            assert(s@.subrange(i as int, j as int).len() == 0);
        }
    }
    String::from_str(sub)
}

/// Whether `v` is a valid UTF-8 encoding, checked byte by byte: each
/// leading byte must be followed by its continuation bytes, and overlong
/// encodings and surrogate code points are rejected.
pub fn check_utf8(v: &Vec<u8>) -> (r: bool)
    ensures
        r == vstd::utf8::valid_utf8(v@),
{
    let n = v.len();
    let mut i: usize = 0;
    while i < n
        invariant
            i <= n,
            n == v@.len(),
            vstd::utf8::partial_valid_utf8(v@, i as int),
        decreases n - i,
    {
        let ghost suf = v@.subrange(i as int, n as int);
        let b = v[i];
        proof {
            assert(suf[0] == b);
        }
        if b < 0x80 {
            // one-byte scalar
            proof {
                assert((b & 0x7f) == b && ((b & 0x7f) as u32) < 0xd800) by (bit_vector)
                    requires
                        b < 0x80,
                ;
                assert(vstd::utf8::valid_first_scalar(suf));
                assert(vstd::utf8::length_of_first_scalar(suf) == 1);
                vstd::utf8::partial_valid_utf8_extend(v@, i as int);
            }
            i = i + 1;
        } else if b < 0xc0 {
            // a continuation byte cannot lead
            proof {
                assert(!vstd::utf8::valid_leading_and_continuation_bytes_first_codepoint(suf));
                assert(!vstd::utf8::valid_utf8(suf));
                vstd::utf8::partial_valid_partial_invalid_utf8(v@, i as int);
            }
            return false;
        } else if b < 0xe0 {
            // two-byte scalar
            if i + 1 >= n {
                proof {
                    assert(suf.len() == 1);
                    assert(!vstd::utf8::valid_leading_and_continuation_bytes_first_codepoint(suf));
                    assert(!vstd::utf8::valid_utf8(suf));
                    vstd::utf8::partial_valid_partial_invalid_utf8(v@, i as int);
                }
                return false;
            }
            let b1 = v[i + 1];
            proof {
                assert(suf[1] == b1);
            }
            if !(0x80 <= b1 && b1 < 0xc0) {
                proof {
                    assert(!vstd::utf8::valid_leading_and_continuation_bytes_first_codepoint(suf));
                    assert(!vstd::utf8::valid_utf8(suf));
                    vstd::utf8::partial_valid_partial_invalid_utf8(v@, i as int);
                }
                return false;
            }
            if b < 0xc2 {
                // overlong: the value fits one byte
                proof {
                    assert(vstd::utf8::codepoint_width_2(b, b1) < 0x80) by (bit_vector)
                        requires
                            0xc0 <= b < 0xc2,
                            0x80 <= b1 < 0xc0,
                    ;
                    assert(vstd::utf8::decode_first_codepoint(suf) == vstd::utf8::codepoint_width_2(
                        b,
                        b1,
                    ));
                    assert(vstd::utf8::length_of_first_codepoint(suf) == 2);
                    assert(!vstd::utf8::valid_first_scalar(suf));
                    assert(!vstd::utf8::valid_utf8(suf));
                    vstd::utf8::partial_valid_partial_invalid_utf8(v@, i as int);
                }
                return false;
            }
            proof {
                assert(0x80 <= vstd::utf8::codepoint_width_2(b, b1) < 0xd800) by (bit_vector)
                    requires
                        0xc2 <= b < 0xe0,
                        0x80 <= b1 < 0xc0,
                ;
                assert(vstd::utf8::decode_first_codepoint(suf) == vstd::utf8::codepoint_width_2(
                    b,
                    b1,
                ));
                assert(vstd::utf8::length_of_first_codepoint(suf) == 2);
                assert(vstd::utf8::valid_first_scalar(suf));
                vstd::utf8::partial_valid_utf8_extend(v@, i as int);
            }
            i = i + 2;
        } else if b < 0xf0 {
            // three-byte scalar
            if n - i < 3 {
                proof {
                    assert(suf.len() <= 2);
                    assert(!vstd::utf8::valid_leading_and_continuation_bytes_first_codepoint(suf));
                    assert(!vstd::utf8::valid_utf8(suf));
                    vstd::utf8::partial_valid_partial_invalid_utf8(v@, i as int);
                }
                return false;
            }
            let b1 = v[i + 1];
            let b2 = v[i + 2];
            proof {
                assert(suf[1] == b1 && suf[2] == b2);
            }
            if !(0x80 <= b1 && b1 < 0xc0) || !(0x80 <= b2 && b2 < 0xc0) {
                proof {
                    assert(!vstd::utf8::valid_leading_and_continuation_bytes_first_codepoint(suf));
                    assert(!vstd::utf8::valid_utf8(suf));
                    vstd::utf8::partial_valid_partial_invalid_utf8(v@, i as int);
                }
                return false;
            }
            if b == 0xe0 && b1 < 0xa0 {
                // overlong: the value fits two bytes
                proof {
                    assert(vstd::utf8::codepoint_width_3(b, b1, b2) < 0x800) by (bit_vector)
                        requires
                            b == 0xe0,
                            0x80 <= b1 < 0xa0,
                            0x80 <= b2 < 0xc0,
                    ;
                    assert(vstd::utf8::decode_first_codepoint(suf) == vstd::utf8::codepoint_width_3(
                        b,
                        b1,
                        b2,
                    ));
                    assert(vstd::utf8::length_of_first_codepoint(suf) == 3);
                    assert(!vstd::utf8::valid_first_scalar(suf));
                    assert(!vstd::utf8::valid_utf8(suf));
                    vstd::utf8::partial_valid_partial_invalid_utf8(v@, i as int);
                }
                return false;
            }
            if b == 0xed && b1 >= 0xa0 {
                // a surrogate code point
                proof {
                    assert(0xd800 <= vstd::utf8::codepoint_width_3(b, b1, b2) <= 0xdfff)
                        by (bit_vector)
                        requires
                            b == 0xed,
                            0xa0 <= b1 < 0xc0,
                            0x80 <= b2 < 0xc0,
                    ;
                    assert(vstd::utf8::decode_first_codepoint(suf) == vstd::utf8::codepoint_width_3(
                        b,
                        b1,
                        b2,
                    ));
                    assert(vstd::utf8::length_of_first_codepoint(suf) == 3);
                    assert(!vstd::utf8::valid_first_scalar(suf));
                    assert(!vstd::utf8::valid_utf8(suf));
                    vstd::utf8::partial_valid_partial_invalid_utf8(v@, i as int);
                }
                return false;
            }
            proof {
                assert((b == 0xe0 ==> 0xa0 <= b1) && (b == 0xed ==> b1 < 0xa0) ==> (0x800
                    <= vstd::utf8::codepoint_width_3(b, b1, b2) <= 0xffff && !(0xd800
                    <= vstd::utf8::codepoint_width_3(b, b1, b2) <= 0xdfff))) by (bit_vector)
                    requires
                        0xe0 <= b < 0xf0,
                        0x80 <= b1 < 0xc0,
                        0x80 <= b2 < 0xc0,
                ;
                let c = vstd::utf8::codepoint_width_3(b, b1, b2);
                assert(vstd::utf8::decode_first_codepoint(suf) == c);
                assert(vstd::utf8::length_of_first_codepoint(suf) == 3);
                assert(vstd::utf8::valid_first_scalar(suf));
                vstd::utf8::partial_valid_utf8_extend(v@, i as int);
            }
            i = i + 3;
        } else if b < 0xf8 {
            // four-byte scalar
            if n - i < 4 {
                proof {
                    assert(suf.len() <= 3);
                    assert(!vstd::utf8::valid_leading_and_continuation_bytes_first_codepoint(suf));
                    assert(!vstd::utf8::valid_utf8(suf));
                    vstd::utf8::partial_valid_partial_invalid_utf8(v@, i as int);
                }
                return false;
            }
            let b1 = v[i + 1];
            let b2 = v[i + 2];
            let b3 = v[i + 3];
            proof {
                assert(suf[1] == b1 && suf[2] == b2 && suf[3] == b3);
            }
            if !(0x80 <= b1 && b1 < 0xc0) || !(0x80 <= b2 && b2 < 0xc0) || !(0x80 <= b3 && b3
                < 0xc0) {
                proof {
                    assert(!vstd::utf8::valid_leading_and_continuation_bytes_first_codepoint(suf));
                    assert(!vstd::utf8::valid_utf8(suf));
                    vstd::utf8::partial_valid_partial_invalid_utf8(v@, i as int);
                }
                return false;
            }
            if (b == 0xf0 && b1 < 0x90) || (b == 0xf4 && b1 >= 0x90) || b > 0xf4 {
                // overlong, or a value beyond the last Unicode plane
                proof {
                    assert(((b == 0xf0 && b1 < 0x90) || (b == 0xf4 && b1 >= 0x90) || b > 0xf4)
                        ==> !(0x10000 <= vstd::utf8::codepoint_width_4(b, b1, b2, b3)
                        <= 0x10ffff)) by (bit_vector)
                        requires
                            0xf0 <= b < 0xf8,
                            0x80 <= b1 < 0xc0,
                            0x80 <= b2 < 0xc0,
                            0x80 <= b3 < 0xc0,
                    ;
                    let c = vstd::utf8::codepoint_width_4(b, b1, b2, b3);
                    assert(vstd::utf8::decode_first_codepoint(suf) == c);
                    assert(vstd::utf8::length_of_first_codepoint(suf) == 4);
                    assert(!vstd::utf8::valid_first_scalar(suf));
                    assert(!vstd::utf8::valid_utf8(suf));
                    vstd::utf8::partial_valid_partial_invalid_utf8(v@, i as int);
                }
                return false;
            }
            proof {
                assert((b == 0xf0 ==> 0x90 <= b1) && (b == 0xf4 ==> b1 < 0x90) && b <= 0xf4
                    ==> 0x10000 <= vstd::utf8::codepoint_width_4(b, b1, b2, b3)
                    <= 0x10ffff) by (bit_vector)
                    requires
                        0xf0 <= b < 0xf8,
                        0x80 <= b1 < 0xc0,
                        0x80 <= b2 < 0xc0,
                        0x80 <= b3 < 0xc0,
                ;
                let c = vstd::utf8::codepoint_width_4(b, b1, b2, b3);
                assert(vstd::utf8::decode_first_codepoint(suf) == c);
                assert(vstd::utf8::length_of_first_codepoint(suf) == 4);
                assert(vstd::utf8::valid_first_scalar(suf));
                vstd::utf8::partial_valid_utf8_extend(v@, i as int);
            }
            i = i + 4;
        } else {
            // 0xf8 and above cannot lead any encoding
            proof {
                assert(!vstd::utf8::valid_leading_and_continuation_bytes_first_codepoint(suf));
                assert(!vstd::utf8::valid_utf8(suf));
                vstd::utf8::partial_valid_partial_invalid_utf8(v@, i as int);
            }
            return false;
        }
    }
    proof {
        assert(v@.subrange(0, n as int) =~= v@);
    }
    true
}

/// Relies on `String::from_utf8`, called only on valid UTF-8 input, where it
/// returns the string whose UTF-8 encoding is that input (the same contract
/// vstd gives `str::from_utf8_unchecked`). The `unwrap` cannot fire: the
/// documentation promises success on valid input.
#[verifier::external_body]
fn string_from_valid_utf8(bytes: Vec<u8>) -> (r: String)
    requires
        vstd::utf8::valid_utf8(bytes@),
    ensures
        vstd::utf8::encode_utf8(r@) == bytes@,
{
    String::from_utf8(bytes).unwrap()
}

/// Decodes `bytes` as UTF-8 text, after checking validity with `check_utf8`.
pub(crate) fn utf8_to_string(bytes: Vec<u8>) -> (r: Option<String>)
    ensures
        r is Some <==> vstd::utf8::valid_utf8(bytes@),
        r matches Some(s) ==> vstd::utf8::encode_utf8(s@) == bytes@,
{
    if check_utf8(&bytes) {
        Some(string_from_valid_utf8(bytes))
    } else {
        None
    }
}

/// The numeric value of one ASCII digit byte: `0`-`9`, and `a`-`f` or `A`-`F`
/// for bases above ten.
pub open spec fn digit_val(b: u8) -> nat {
    if 48 <= b <= 57 {
        (b - 48) as nat
    } else if 65 <= b <= 70 {
        (b - 55) as nat
    } else if 97 <= b <= 102 {
        (b - 87) as nat
    } else {
        16
    }
}

/// Whether `b` is an ASCII digit of the given base.
pub open spec fn is_digit_base(b: u8, base: nat) -> bool {
    digit_val(b) < base
}

/// The unsigned value of a run of ASCII digits read in the given base, most
/// significant digit first.
pub open spec fn radix_value(s: Seq<u8>, base: nat) -> nat
    decreases s.len(),
{
    if s.len() == 0 {
        0
    } else {
        radix_value(s.drop_last(), base) * base + digit_val(s.last())
    }
}

/// Whether `s` is a non-empty digit run of the given base whose value fits a
/// `usize`: exactly the strings that the digit-run parser accepts.
pub open spec fn digits_ok(s: Seq<u8>, base: nat) -> bool {
    &&& s.len() > 0
    &&& forall|i: int| 0 <= i < s.len() ==> is_digit_base(#[trigger] s[i], base)
    &&& radix_value(s, base) <= usize::MAX
}

/// A digit run's value is at least the value of any of its prefixes.
pub proof fn lemma_radix_prefix_le(s: Seq<u8>, k: int, base: nat)
    requires
        0 <= k <= s.len(),
        base >= 1,
    ensures
        radix_value(s.subrange(0, k), base) <= radix_value(s, base),
    decreases s.len(),
{
    if k == s.len() {
        assert(s.subrange(0, k) =~= s);
    } else {
        let t = s.drop_last();
        lemma_radix_prefix_le(t, k, base);
        assert(s.subrange(0, k) =~= t.subrange(0, k));
        assert(radix_value(t, base) * base >= radix_value(t, base)) by (nonlinear_arith)
            requires
                base >= 1,
        ;
    }
}

/// The canonical lowercase digit byte for a value below the base.
pub open spec fn canon_digit(d: nat) -> u8 {
    if d < 10 {
        (48 + d) as u8
    } else {
        (87 + d) as u8
    }
}

/// The canonical (lowercase, no leading zeros) digit run of `n` in the given
/// base.
pub open spec fn canon_digits(n: nat, base: nat) -> Seq<u8>
    decreases n,
    when 2 <= base
    via canon_digits_decreases
{
    if n < base {
        seq![canon_digit(n)]
    } else {
        canon_digits(n / base, base).push(canon_digit(n % base))
    }
}

#[via_fn]
proof fn canon_digits_decreases(n: nat, base: nat) {
    if n >= base {
        assert(n / base < n) by (nonlinear_arith)
            requires
                n >= base >= 2,
        ;
    }
}

/// The canonical digit run of `n` is a digit run of its base and reads back
/// as `n`.
pub proof fn lemma_canon_digits(n: nat, base: nat)
    requires
        2 <= base <= 16,
    ensures
        canon_digits(n, base).len() > 0,
        forall|i: int|
            0 <= i < canon_digits(n, base).len() ==> is_digit_base(
                #[trigger] canon_digits(n, base)[i],
                base,
            ),
        radix_value(canon_digits(n, base), base) == n,
    decreases n,
{
    if n < base {
        let d = canon_digits(n, base);
        assert(d =~= seq![canon_digit(n)]);
        assert(d.last() == canon_digit(n));
        assert(d.drop_last().len() == 0);
        assert(radix_value(d, base) == radix_value(d.drop_last(), base) * base + digit_val(
            canon_digit(n),
        ));
        assert(radix_value(d.drop_last(), base) == 0);
        assert(digit_val(canon_digit(n)) == n);
        assert(radix_value(d.drop_last(), base) * base == 0) by (nonlinear_arith)
            requires
                radix_value(d.drop_last(), base) == 0,
        ;
        assert(radix_value(d, base) == n);
    } else {
        assert(n / base < n) by (nonlinear_arith)
            requires
                n >= base >= 2,
        ;
        lemma_canon_digits(n / base, base);
        vstd::arithmetic::div_mod::lemma_fundamental_div_mod(n as int, base as int);
        let head = canon_digits(n / base, base);
        let d = canon_digits(n, base);
        assert(d == head.push(canon_digit(n % base)));
        assert(d.drop_last() =~= head);
        assert(d.last() == canon_digit(n % base));
        assert(radix_value(d, base) == radix_value(head, base) * base + digit_val(
            canon_digit(n % base),
        ));
        assert(forall|i: int| 0 <= i < d.len() - 1 ==> d[i] == head[i]);
        assert(digit_val(canon_digit(n % base)) == n % base);
        assert(radix_value(head, base) == n / base);
        assert(radix_value(head, base) * base + (n % base) == n) by (nonlinear_arith)
            requires
                radix_value(head, base) == n / base,
                base >= 2,
        ;
        assert(radix_value(d, base) == n);
    }
}

/// Parses the bytes of `v` from `start` (inclusive) to `end` (exclusive) as
/// an unsigned integer in the given base. Returns `None` when the run is
/// empty, holds a non-digit, or overflows `usize`.
pub fn parse_radix(v: &Vec<u8>, start: usize, end: usize, base: usize) -> (r: Option<usize>)
    requires
        start <= end <= v.len(),
        base == 10 || base == 16,
    ensures
        match r {
            Some(x) => digits_ok(v@.subrange(start as int, end as int), base as nat) && x as nat
                == radix_value(v@.subrange(start as int, end as int), base as nat),
            None => !digits_ok(v@.subrange(start as int, end as int), base as nat),
        },
{
    let ghost s = v@.subrange(start as int, end as int);
    if start == end {
        return None;
    }
    let mut value: usize = 0;
    let mut i: usize = start;
    while i < end
        invariant
            start <= i <= end <= v.len(),
            base == 10 || base == 16,
            s == v@.subrange(start as int, end as int),
            value as nat == radix_value(s.subrange(0, i - start), base as nat),
            forall|j: int| 0 <= j < i - start ==> is_digit_base(#[trigger] s[j], base as nat),
        decreases end - i,
    {
        let b = v[i];
        let d: usize = if 48 <= b && b <= 57 {
            (b - 48) as usize
        } else if 65 <= b && b <= 70 {
            (b - 55) as usize
        } else if 97 <= b && b <= 102 {
            (b - 87) as usize
        } else {
            assert(!is_digit_base(s[i - start], base as nat));
            return None;
        };
        if d >= base {
            assert(!is_digit_base(s[i - start], base as nat));
            return None;
        }
        let shifted = match value.checked_mul(base) {
            Some(x) => x,
            None => {
                proof {
                    let pre = s.subrange(0, i - start);
                    let pre1 = s.subrange(0, i + 1 - start);
                    assert(pre1.drop_last() =~= pre);
                    assert(radix_value(pre1, base as nat) > usize::MAX) by {
                        assert(radix_value(pre1, base as nat) == radix_value(pre, base as nat)
                            * (base as nat) + digit_val(s[i - start]));
                    }
                    lemma_radix_prefix_le(s, i + 1 - start, base as nat);
                }
                return None;
            },
        };
        let next = match shifted.checked_add(d) {
            Some(x) => x,
            None => {
                proof {
                    let pre = s.subrange(0, i - start);
                    let pre1 = s.subrange(0, i + 1 - start);
                    assert(pre1.drop_last() =~= pre);
                    assert(radix_value(pre1, base as nat) > usize::MAX) by {
                        assert(radix_value(pre1, base as nat) == radix_value(pre, base as nat)
                            * (base as nat) + digit_val(s[i - start]));
                    }
                    lemma_radix_prefix_le(s, i + 1 - start, base as nat);
                }
                return None;
            },
        };
        proof {
            let pre = s.subrange(0, i - start);
            let pre1 = s.subrange(0, i + 1 - start);
            assert(pre1.drop_last() =~= pre);
            assert(pre1.last() == s[i - start]);
        }
        value = next;
        i = i + 1;
    }
    assert(s.subrange(0, (end - start) as int) =~= s);
    Some(value)
}

} // verus!
