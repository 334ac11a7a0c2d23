//! Framing of JSON-RPC messages on a language server's standard streams: a
//! `Content-Length` header, an empty line, then the body.
use vstd::prelude::*;
use vstd::string::StringSliceAdditionalSpecFns;
use vstd::utf8::*;
use crate::text::{
    all_digits, chars_match_at, is_ws, chars_of, decimal, decimal_string, digit_char, digits_value,
    find_bytes, find_from, has_prefix, is_digit, lemma_find_from, matches_at, trim_end, trim_start, line_bounds, lines, parse_usize, parse_usize_range, push_str, strip_prefix,
    trim, trim_range,
};

verus! {

broadcast use vstd::utf8::group_utf8_lib;

/// The text that starts the header line giving the body's length.
pub open spec fn length_prefix() -> Seq<char> {
    "Content-Length: "@
}

/// The bytes that end the header.
pub open spec fn header_end() -> Seq<u8> {
    seq![13u8, 10u8, 13u8, 10u8]
}

/// The length that header lines `ls[k..]` declare: the first line that
/// begins with the prefix and whose rest, trimmed, parses as a `usize`.
pub open spec fn declared_length_from(ls: Seq<Seq<char>>, k: int) -> Option<nat>
    decreases ls.len() - k,
{
    if k < 0 || k >= ls.len() {
        None
    } else {
        match strip_prefix(ls[k], length_prefix()) {
            Some(rest) => match parse_usize(trim(rest)) {
                Some(n) => Some(n),
                None => declared_length_from(ls, k + 1),
            },
            None => declared_length_from(ls, k + 1),
        }
    }
}

/// Where the first complete message in `data` lies: the bounds of its body.
/// There is none when `data` is not UTF-8 as a whole, holds no end of header,
/// declares no length, or holds fewer bytes than declared.
pub open spec fn frame_bounds(data: Seq<u8>) -> Option<(int, int)> {
    if !valid_utf8(data) {
        None
    } else {
        match find_from(data, header_end(), 0) {
            None => None,
            Some(pos) => match declared_length_from(
                lines(decode_utf8(data.subrange(0, pos))),
                0,
            ) {
                None => None,
                Some(len) => if data.len() < pos + 4 + len {
                    None
                } else {
                    Some((pos + 4, pos + 4 + len))
                },
            },
        }
    }
}

/// The header written before a body of `n` bytes.
pub open spec fn header_chars(n: nat) -> Seq<char> {
    length_prefix() + decimal(n) + seq!['\r', '\n', '\r', '\n']
}

/// A body with its header in front.
pub open spec fn framed(body: Seq<u8>) -> Seq<u8> {
    encode_utf8(header_chars(body.len())) + body
}

/// Calls std's `str::from_utf8`. Claimed: it gives a text exactly when the
/// bytes are valid UTF-8, and the text's bytes are the given ones.
#[verifier::external_body]
fn utf8_text(data: &[u8]) -> (r: Option<&str>)
    ensures
        r is Some <==> valid_utf8(data@),
        r matches Some(s) ==> s.spec_bytes() == data@,
{
    std::str::from_utf8(data).ok()
}

/// Whether `s[lo..hi]` begins with `p`.
fn range_has_prefix(s: &[char], lo: usize, hi: usize, p: &[char]) -> (b: bool)
    requires
        lo <= hi <= s@.len(),
    ensures
        b == has_prefix(s@.subrange(lo as int, hi as int), p@),
{
    if p.len() > hi - lo {
        return false;
    }
    let b = chars_match_at(s, p, lo);
    proof {
        assert(s@.subrange(lo as int, hi as int).subrange(0, p@.len() as int) =~= s@.subrange(
            lo as int,
            lo + p@.len(),
        ));
    }
    b
}

/// The length that the header text `h` declares.
fn declared_length(h: &[char]) -> (r: Option<usize>)
    ensures
        match r {
            Some(n) => declared_length_from(lines(h@), 0) == Some(n as nat),
            None => declared_length_from(lines(h@), 0) is None,
        },
{
    let bounds = line_bounds(h);
    let prefix = chars_of("Content-Length: ");
    let mut k: usize = 0;
    while k < bounds.len()
        invariant
            k <= bounds@.len(),
            prefix@ == length_prefix(),
            bounds@.len() == lines(h@).len(),
            forall|m: int|
                0 <= m < bounds@.len() ==> {
                    &&& (#[trigger] bounds@[m]).0 <= bounds@[m].1 <= h@.len()
                    &&& h@.subrange(bounds@[m].0 as int, bounds@[m].1 as int) == lines(h@)[m]
                },
            declared_length_from(lines(h@), 0) == declared_length_from(lines(h@), k as int),
        decreases bounds@.len() - k,
    {
        let (lo, hi) = bounds[k];
        let ghost line = lines(h@)[k as int];
        if range_has_prefix(h, lo, hi, &prefix) {
            let (a, b) = trim_range(h, lo + prefix.len(), hi);
            proof {
                assert(h@.subrange(lo + prefix@.len(), hi as int) =~= line.subrange(
                    prefix@.len() as int,
                    line.len() as int,
                ));
            }
            match parse_usize_range(h, a, b) {
                Some(n) => {
                    return Some(n);
                },
                None => {},
            }
        }
        k += 1;
    }
    None
}

/// The bounds of the body of the first complete message in `data`
/// (the framing half of reading a message from a language server).
pub fn frame_bounds_of(data: &[u8]) -> (r: Option<(usize, usize)>)
    ensures
        match r {
            Some((a, b)) => frame_bounds(data@) == Some((a as int, b as int)),
            None => frame_bounds(data@) is None,
        },
{
    if utf8_text(data).is_none() {
        return None;
    }
    let term: Vec<u8> = vec![13u8, 10u8, 13u8, 10u8];
    assert(term@ =~= header_end());
    let pos = match find_bytes(data, &term, 0) {
        Some(p) => p,
        None => {
            return None;
        },
    };
    proof {
        lemma_find_from(data@, header_end(), 0);
        assert(data@[pos as int] == 13u8) by {
            assert(data@.subrange(pos as int, pos + 4)[0] == header_end()[0]);
        }
        assert(is_char_boundary(data@, pos as int)) by {
            is_char_boundary_iff_is_leading_byte(data@, pos as int);
        }
        valid_utf8_split(data@, pos as int);
    }
    let head = &data[0..pos];
    assert(head@ =~= data@.subrange(0, pos as int));
    let text = match utf8_text(head) {
        Some(t) => t,
        None => {
            return None;
        },
    };
    proof {
        encode_utf8_decode_utf8(text@);
    }
    let hc = chars_of(text);
    let len = match declared_length(&hc) {
        Some(n) => n,
        None => {
            return None;
        },
    };
    let n = data.len();
    assert(pos + 4 <= n);
    let body_start = pos + 4;
    if len > data.len() - body_start {
        return None;
    }
    Some((body_start, body_start + len))
}

/// The bytes of a message whose body is `body`: the header, then the body
/// (the framing half of writing a message to a language server).
pub fn frame_message(body: &[u8]) -> (out: Vec<u8>)
    ensures
        out@ == framed(body@),
{
    let mut header = String::new();
    push_str(&mut header, "Content-Length: ");
    let digits = decimal_string(body.len() as u64);
    push_str(&mut header, digits.as_str());
    push_str(&mut header, "\r\n\r\n");
    proof {
        reveal_strlit("\r\n\r\n");
        assert(header@ =~= header_chars(body@.len()));
    }
    let hb = header.as_str().as_bytes();
    let mut out: Vec<u8> = Vec::new();
    let mut i: usize = 0;
    while i < hb.len()
        invariant
            i <= hb@.len(),
            out@ == hb@.take(i as int),
        decreases hb@.len() - i,
    {
        out.push(hb[i]);
        proof {
            assert(hb@.take(i + 1) =~= hb@.take(i as int).push(hb@[i as int]));
        }
        i += 1;
    }
    let ghost h = out@;
    let mut j: usize = 0;
    while j < body.len()
        invariant
            j <= body@.len(),
            h == hb@,
            out@ == h + body@.take(j as int),
        decreases body@.len() - j,
    {
        out.push(body[j]);
        proof {
            assert(h + body@.take(j + 1) =~= (h + body@.take(j as int)).push(body@[j as int]));
        }
        j += 1;
    }
    proof {
        assert(hb@.take(hb@.len() as int) =~= hb@);
        assert(body@.take(body@.len() as int) =~= body@);
    }
    out
}

/// The decimal representation of a number is a non-empty digit string
/// denoting that number.
pub proof fn lemma_decimal(n: nat)
    ensures
        decimal(n).len() >= 1,
        all_digits(decimal(n)),
        digits_value(decimal(n)) == n,
    decreases n,
{
    if n < 10 {
        let d = decimal(n);
        assert(d.drop_last() =~= Seq::<char>::empty());
        assert(digits_value(Seq::<char>::empty()) == 0);
        assert(d.last() == digit_char(n));
        assert(digit_char(n) as u32 == 48 + n);
        assert(digits_value(d) == digits_value(d.drop_last()) * 10 + ((d.last() as u32) - 48) as nat);
    } else {
        lemma_decimal(n / 10);
        let d = decimal(n);
        assert(d.drop_last() =~= decimal(n / 10));
        assert(d.last() == digit_char(n % 10));
        assert(digit_char(n % 10) as u32 == 48 + n % 10);
        assert(digits_value(d) == digits_value(decimal(n / 10)) * 10 + n % 10);
        assert((n / 10) * 10 + n % 10 == n);
        assert forall|i: int| 0 <= i < d.len() implies is_digit(#[trigger] d[i]) by {
            if i < d.len() - 1 {
                assert(d[i] == decimal(n / 10)[i]);
            }
        }
    }
}

/// A decimal digit is an ASCII character.
proof fn lemma_digit_ascii(c: char)
    requires
        is_digit(c),
    ensures
        '\0' <= c <= '\u{7f}',
        c != '\r',
        c != '\n',
        c != '+',
        !is_ws(c),
{
}

/// A match with none before it, at or after `i`, is what `find_from` finds.
pub proof fn lemma_find_from_first<A>(s: Seq<A>, p: Seq<A>, i: int, j: int)
    requires
        0 <= i <= j,
        matches_at(s, p, j),
        forall|k: int| i <= k < j ==> !matches_at(s, p, k),
    ensures
        find_from(s, p, i) == Some(j),
    decreases j - i,
{
    if i < j {
        assert(!matches_at(s, p, i));
        if p.len() == 0 {
            assert(s.subrange(i, i) =~= p);
        }
        lemma_find_from_first(s, p, i + 1, j);
    }
}

/// What the header written for a body of `n` bytes is made of: it is
/// UTF-8, its end of header stands at its end and nowhere earlier, and the
/// text before that declares `n`.
proof fn lemma_header(n: nat)
    requires
        n <= usize::MAX,
    ensures
        ({
            let hb = encode_utf8(header_chars(n));
            let len = hb.len() as int;
            &&& len == header_chars(n).len()
            &&& len >= 20
            &&& valid_utf8(hb)
            &&& matches_at(hb, header_end(), len - 4)
            &&& forall|k: int| 0 <= k < len - 4 ==> !#[trigger] matches_at(hb, header_end(), k)
            &&& declared_length_from(lines(decode_utf8(hb.subrange(0, len - 4))), 0) == Some(n)
        }),
{
    reveal_strlit("Content-Length: ");
    let pre = length_prefix();
    let digits = decimal(n);
    lemma_decimal(n);
    let hc = header_chars(n);
    let line = pre + digits;
    let hb = encode_utf8(hc);
    let len = hc.len() as int;
    assert(pre =~= seq!['C', 'o', 'n', 't', 'e', 'n', 't', '-', 'L', 'e', 'n', 'g', 't', 'h', ':', ' ']);
    assert(pre.len() == 16);
    assert(is_ascii_chars(hc)) by {
        assert forall|i: int| 0 <= i < hc.len() implies '\0' <= #[trigger] hc[i] <= '\u{7f}' by {
            if i < 16 {
                assert(hc[i] == pre[i]);
                assert('\0' <= pre[i] <= '\u{7f}');
            } else if i < 16 + digits.len() {
                assert(hc[i] == digits[i - 16]);
                assert(is_digit(digits[i - 16]));
                lemma_digit_ascii(digits[i - 16]);
            } else {
                let tail = seq!['\r', '\n', '\r', '\n'];
                assert(hc[i] == tail[i - 16 - digits.len()]);
                assert('\0' <= tail[i - 16 - digits.len()] <= '\u{7f}');
            }
        }
    }
    is_ascii_chars_encode_utf8(hc);
    assert(hb.len() == len);
    encode_utf8_valid_utf8(hc);
    // The end of the header is where it was written, and nowhere earlier.
    assert(matches_at(hb, header_end(), len - 4)) by {
        assert(hb.subrange(len - 4, len) =~= header_end()) by {
            assert forall|i: int| 0 <= i < 4 implies hb.subrange(len - 4, len)[i] == header_end()[i] by {
                assert(hc[len - 4 + i] as u8 == hb[len - 4 + i]);
            }
        }
    }
    assert forall|k: int| 0 <= k < len - 4 implies !#[trigger] matches_at(hb, header_end(), k) by {
        assert(hc[k] as u8 == hb[k]);
        if k >= 16 {
            assert(hc[k] == digits[k - 16]);
            assert(is_digit(digits[k - 16]));
        }
        if matches_at(hb, header_end(), k) {
            assert(hb.subrange(k, k + 4)[0] == header_end()[0]);
        }
    }
    // The header text decodes to the single line that was written.
    assert(is_ascii_chars(line)) by {
        assert forall|i: int| 0 <= i < line.len() implies '\0' <= #[trigger] line[i] <= '\u{7f}' by {
            assert(line[i] == hc[i]);
        }
    }
    is_ascii_chars_encode_utf8(line);
    assert(hb.subrange(0, len - 4) =~= encode_utf8(line)) by {
        assert forall|i: int| 0 <= i < len - 4 implies hb.subrange(0, len - 4)[i] == encode_utf8(line)[i] by {
            assert(hc[i] as u8 == hb[i]);
            assert(line[i] == hc[i]);
        }
    }
    encode_utf8_decode_utf8(line);
    // That line holds no line break, so it is the only line.
    let nl = seq!['\n'];
    lemma_find_from(line, nl, 0);
    if let Some(j) = find_from(line, nl, 0) {
        assert(line.subrange(j, j + 1)[0] == nl[0]);
        if j >= 16 {
            assert(line[j] == digits[j - 16]);
            assert(is_digit(digits[j - 16]));
        }
        assert(false);
    }
    assert(lines(line) =~= seq![line]) by {
        assert(line.subrange(0, line.len() as int) =~= line);
    }
    // The line declares the body's length.
    assert(line.subrange(0, 16) =~= pre);
    assert(line.subrange(16, line.len() as int) =~= digits);
    assert(strip_prefix(line, pre) == Some(digits));
    assert(is_digit(digits[0]));
    assert(is_digit(digits.last()));
    assert(trim_start(digits) == digits);
    assert(trim_end(digits) == digits);
    assert(parse_usize(digits) == Some(n));
    assert(declared_length_from(seq![line], 0) == Some(n));
}

/// Reading back what was written: when a framed body is followed by any
/// bytes (the whole being UTF-8, as the reader asks), the first message
/// found is exactly that body, and the bytes after it are the ones that
/// followed.
pub proof fn law_frame_roundtrip(body: Seq<u8>, rest: Seq<u8>)
    requires
        valid_utf8(body + rest),
        body.len() <= usize::MAX,
    ensures
        ({
            let data = framed(body) + rest;
            let h = encode_utf8(header_chars(body.len())).len() as int;
            &&& frame_bounds(data) == Some((h, h + body.len()))
            &&& data.subrange(h, h + body.len()) == body
            &&& data.subrange(h + body.len(), data.len() as int) == rest
        }),
{
    let n = body.len();
    lemma_header(n);
    let hb = encode_utf8(header_chars(n));
    let len = hb.len() as int;
    let data = framed(body) + rest;
    assert(data =~= hb + (body + rest));
    valid_utf8_concat(hb, body + rest);
    assert forall|k: int| 0 <= k <= len - 4 implies #[trigger] matches_at(data, header_end(), k)
        == matches_at(hb, header_end(), k) by {
        assert(data.subrange(k, k + 4) =~= hb.subrange(k, k + 4));
    }
    lemma_find_from_first(data, header_end(), 0, len - 4);
    assert(data.subrange(0, len - 4) =~= hb.subrange(0, len - 4));
    assert(data.subrange(len, len + n) =~= body);
    assert(data.subrange(len + n, data.len() as int) =~= rest);
}

/// A message is not read before all of it has come: on every strict prefix
/// of what was written for a body, no message is found.
pub proof fn law_frame_prefix_incomplete(body: Seq<u8>, q: int)
    requires
        body.len() <= usize::MAX,
        0 <= q < framed(body).len(),
    ensures
        frame_bounds(framed(body).take(q)) is None,
{
    let n = body.len();
    lemma_header(n);
    let hb = encode_utf8(header_chars(n));
    let len = hb.len() as int;
    let f = framed(body);
    let data = f.take(q);
    assert(f =~= hb + body);
    if valid_utf8(data) {
        assert forall|k: int| 0 <= k && k + 4 <= q && k + 4 <= len implies #[trigger] matches_at(
            data,
            header_end(),
            k,
        ) == matches_at(hb, header_end(), k) by {
            assert(data.subrange(k, k + 4) =~= hb.subrange(k, k + 4));
        }
        lemma_find_from(data, header_end(), 0);
        if q < len {
            if let Some(j) = find_from(data, header_end(), 0) {
                assert(matches_at(data, header_end(), j));
                assert(j + 4 <= q);
                assert(false);
            }
        } else {
            lemma_find_from_first(data, header_end(), 0, len - 4);
            assert(data.subrange(0, len - 4) =~= hb.subrange(0, len - 4));
            assert(data.len() < len + n);
        }
    }
}

} // verus!
