//! Character-level text operations with their mathematical meaning.
//!
//! Strings are modelled by their view, a `Seq<char>`.  Each executable
//! function here is tied to a spec function that says, in the most direct
//! way available, what the corresponding `str` operation computes.
use vstd::prelude::*;

verus! {

/// The characters that `char::is_whitespace` accepts (Unicode White_Space).
pub open spec fn is_ws(c: char) -> bool {
    let u = c as u32;
    ||| u == 0x20
    ||| (0x09 <= u && u <= 0x0d)
    ||| u == 0x85
    ||| u == 0xa0
    ||| u == 0x1680
    ||| (0x2000 <= u && u <= 0x200a)
    ||| u == 0x2028
    ||| u == 0x2029
    ||| u == 0x202f
    ||| u == 0x205f
    ||| u == 0x3000
}

/// `s` with its leading whitespace removed.
pub open spec fn trim_start(s: Seq<char>) -> Seq<char>
    decreases s.len(),
{
    if s.len() > 0 && is_ws(s[0]) {
        trim_start(s.drop_first())
    } else {
        s
    }
}

/// `s` with its trailing whitespace removed.
pub open spec fn trim_end(s: Seq<char>) -> Seq<char>
    decreases s.len(),
{
    if s.len() > 0 && is_ws(s.last()) {
        trim_end(s.drop_last())
    } else {
        s
    }
}

/// What `str::trim` returns.
pub open spec fn trim(s: Seq<char>) -> Seq<char> {
    trim_end(trim_start(s))
}

/// `p` occurs in `s` at position `i`.
pub open spec fn matches_at<A>(s: Seq<A>, p: Seq<A>, i: int) -> bool {
    0 <= i && i + p.len() <= s.len() && s.subrange(i, i + p.len()) == p
}

/// The first position at or after `i` where `p` occurs in `s`.
pub open spec fn find_from<A>(s: Seq<A>, p: Seq<A>, i: int) -> Option<int>
    decreases s.len() - i,
{
    if i < 0 || i + p.len() > s.len() {
        None
    } else if p.len() == 0 || matches_at(s, p, i) {
        Some(i)
    } else {
        find_from(s, p, i + 1)
    }
}

/// `s` begins with `p`.
pub open spec fn has_prefix<A>(s: Seq<A>, p: Seq<A>) -> bool {
    p.len() <= s.len() && s.subrange(0, p.len() as int) == p
}

/// `s` ends with `p`.
pub open spec fn has_suffix<A>(s: Seq<A>, p: Seq<A>) -> bool {
    p.len() <= s.len() && s.subrange(s.len() - p.len(), s.len() as int) == p
}

/// `p` occurs somewhere in `s` (`str::contains`).
pub open spec fn contains_seq<A>(s: Seq<A>, p: Seq<A>) -> bool {
    find_from(s, p, 0) is Some
}

/// What `find_from` returns, stated by quantifiers.
pub proof fn lemma_find_from<A>(s: Seq<A>, p: Seq<A>, i: int)
    requires
        0 <= i,
    ensures
        match find_from(s, p, i) {
            Some(j) => i <= j && matches_at(s, p, j) && forall|k: int|
                i <= k < j ==> !matches_at(s, p, k),
            None => forall|k: int| i <= k ==> !matches_at(s, p, k),
        },
    decreases s.len() - i,
{
    if i + p.len() > s.len() {
    } else if p.len() == 0 || matches_at(s, p, i) {
        assert(s.subrange(i, i + p.len()) =~= p) by {
            if p.len() == 0 {
                assert(s.subrange(i, i) =~= p);
            }
        }
    } else {
        lemma_find_from(s, p, i + 1);
    }
}

/// Calls std's `String::push`. Claimed: the string afterwards is the old
/// one with `c` appended.
#[verifier::external_body]
pub(crate) fn push_char(s: &mut String, c: char)
    ensures
        final(s)@ == old(s)@.push(c),
{
    s.push(c);
}

/// The characters of `s`, in order.
pub fn chars_of(s: &str) -> (out: Vec<char>)
    ensures
        out@ == s@,
{
    let mut out: Vec<char> = Vec::new();
    for c in it: s.chars()
        invariant
            out@ == it.seq().take(it.index() as int),
    {
        out.push(c);
    }
    out
}

/// The string made of the characters `cs`.
pub fn string_of(cs: &[char]) -> (s: String)
    ensures
        s@ == cs@,
{
    let mut s = String::new();
    let mut i: usize = 0;
    while i < cs.len()
        invariant
            i <= cs@.len(),
            s@ == cs@.take(i as int),
        decreases cs@.len() - i,
    {
        push_char(&mut s, cs[i]);
        proof {
            assert(cs@.take(i + 1) =~= cs@.take(i as int).push(cs@[i as int]));
        }
        i += 1;
    }
    proof {
        assert(cs@.take(cs@.len() as int) =~= cs@);
    }
    s
}

/// The string made of the characters `cs[lo..hi]`.
pub fn string_of_range(cs: &[char], lo: usize, hi: usize) -> (s: String)
    requires
        lo <= hi <= cs@.len(),
    ensures
        s@ == cs@.subrange(lo as int, hi as int),
{
    let mut s = String::new();
    let mut i: usize = lo;
    while i < hi
        invariant
            lo <= i <= hi <= cs@.len(),
            s@ == cs@.subrange(lo as int, i as int),
        decreases hi - i,
    {
        push_char(&mut s, cs[i]);
        proof {
            assert(cs@.subrange(lo as int, i + 1) =~= cs@.subrange(lo as int, i as int).push(
                cs@[i as int],
            ));
        }
        i += 1;
    }
    s
}

/// Appends `t` to `s`.
pub fn push_str(s: &mut String, t: &str)
    ensures
        final(s)@ == old(s)@ + t@,
{
    let cs = chars_of(t);
    let ghost start = s@;
    let mut i: usize = 0;
    while i < cs.len()
        invariant
            i <= cs@.len(),
            cs@ == t@,
            s@ == start + cs@.take(i as int),
        decreases cs@.len() - i,
    {
        push_char(s, cs[i]);
        proof {
            assert(cs@.take(i + 1) =~= cs@.take(i as int).push(cs@[i as int]));
            assert(start + cs@.take(i + 1) =~= (start + cs@.take(i as int)).push(cs@[i as int]));
        }
        i += 1;
    }
    proof {
        assert(cs@.take(cs@.len() as int) =~= cs@);
    }
}

/// `a` followed by `b`.
pub fn concat(a: &str, b: &str) -> (s: String)
    ensures
        s@ == a@ + b@,
{
    let mut s = String::new();
    push_str(&mut s, a);
    proof {
        assert(Seq::<char>::empty() + a@ =~= a@);
    }
    push_str(&mut s, b);
    s
}

/// Executable `is_ws`.
pub fn is_ws_char(c: char) -> (b: bool)
    ensures
        b == is_ws(c),
{
    let u = c as u32;
    u == 0x20 || (0x09 <= u && u <= 0x0d) || u == 0x85 || u == 0xa0 || u == 0x1680 || (0x2000
        <= u && u <= 0x200a) || u == 0x2028 || u == 0x2029 || u == 0x202f || u == 0x205f || u
        == 0x3000
}

/// The bounds of `s` with surrounding whitespace removed.
pub fn trim_range(s: &[char], lo: usize, hi: usize) -> (r: (usize, usize))
    requires
        lo <= hi <= s@.len(),
    ensures
        lo <= r.0 <= r.1 <= hi,
        s@.subrange(r.0 as int, r.1 as int) == trim(s@.subrange(lo as int, hi as int)),
{
    let mut i = lo;
    while i < hi && is_ws_char(s[i])
        invariant
            lo <= i <= hi <= s@.len(),
            trim_start(s@.subrange(i as int, hi as int)) == trim_start(
                s@.subrange(lo as int, hi as int),
            ),
        decreases hi - i,
    {
        proof {
            assert(s@.subrange(i as int, hi as int).drop_first() =~= s@.subrange(
                i + 1,
                hi as int,
            ));
        }
        i += 1;
    }
    assert(trim_start(s@.subrange(i as int, hi as int)) == s@.subrange(i as int, hi as int));
    let mut j = hi;
    while j > i && is_ws_char(s[j - 1])
        invariant
            lo <= i <= j <= hi <= s@.len(),
            trim_end(s@.subrange(i as int, j as int)) == trim_end(
                s@.subrange(i as int, hi as int),
            ),
        decreases j - i,
    {
        proof {
            assert(s@.subrange(i as int, j as int).drop_last() =~= s@.subrange(
                i as int,
                j - 1,
            ));
        }
        j -= 1;
    }
    assert(trim_end(s@.subrange(i as int, j as int)) == s@.subrange(i as int, j as int));
    (i, j)
}

/// What `str::trim` returns, as a new string.
pub fn trim_str(s: &str) -> (t: String)
    ensures
        t@ == trim(s@),
{
    let cs = chars_of(s);
    let (i, j) = trim_range(&cs, 0, cs.len());
    proof {
        assert(cs@.subrange(0, cs@.len() as int) =~= cs@);
    }
    string_of_range(&cs, i, j)
}

/// Whether `p` occurs in `s` at position `i`.
pub fn chars_match_at(s: &[char], p: &[char], i: usize) -> (b: bool)
    ensures
        b == matches_at(s@, p@, i as int),
{
    if i > s.len() || p.len() > s.len() - i {
        return false;
    }
    let mut k: usize = 0;
    while k < p.len()
        invariant
            i + p@.len() <= s.len(),
            k <= p@.len(),
            forall|m: int| 0 <= m < k ==> s@[i + m] == p@[m],
        decreases p@.len() - k,
    {
        if s[i + k] != p[k] {
            proof {
                assert(s@.subrange(i as int, i + p@.len())[k as int] != p@[k as int]);
            }
            return false;
        }
        k += 1;
    }
    assert(s@.subrange(i as int, i + p@.len()) =~= p@);
    true
}

/// The first position at or after `from` where `p` occurs in `s`.
pub fn find_chars(s: &[char], p: &[char], from: usize) -> (r: Option<usize>)
    ensures
        match r {
            Some(j) => find_from(s@, p@, from as int) == Some(j as int),
            None => find_from(s@, p@, from as int) is None,
        },
{
    let mut i = from;
    loop
        invariant
            from <= i,
            find_from(s@, p@, from as int) == find_from(s@, p@, i as int),
        decreases s@.len() + 1 - i,
    {
        if i > s.len() || p.len() > s.len() - i {
            return None;
        }
        if p.len() == 0 || chars_match_at(s, p, i) {
            return Some(i);
        }
        i += 1;
    }
}

/// Bytes: whether `p` occurs in `s` at position `i`.
pub fn bytes_match_at(s: &[u8], p: &[u8], i: usize) -> (b: bool)
    ensures
        b == matches_at(s@, p@, i as int),
{
    if i > s.len() || p.len() > s.len() - i {
        return false;
    }
    let mut k: usize = 0;
    while k < p.len()
        invariant
            i + p@.len() <= s.len(),
            k <= p@.len(),
            forall|m: int| 0 <= m < k ==> s@[i + m] == p@[m],
        decreases p@.len() - k,
    {
        if s[i + k] != p[k] {
            proof {
                assert(s@.subrange(i as int, i + p@.len())[k as int] != p@[k as int]);
            }
            return false;
        }
        k += 1;
    }
    assert(s@.subrange(i as int, i + p@.len()) =~= p@);
    true
}

/// Bytes: the first position at or after `from` where `p` occurs in `s`.
pub fn find_bytes(s: &[u8], p: &[u8], from: usize) -> (r: Option<usize>)
    ensures
        match r {
            Some(j) => find_from(s@, p@, from as int) == Some(j as int),
            None => find_from(s@, p@, from as int) is None,
        },
{
    let mut i = from;
    loop
        invariant
            from <= i,
            find_from(s@, p@, from as int) == find_from(s@, p@, i as int),
        decreases s@.len() + 1 - i,
    {
        if i > s.len() || p.len() > s.len() - i {
            return None;
        }
        if p.len() == 0 || bytes_match_at(s, p, i) {
            return Some(i);
        }
        i += 1;
    }
}

/// Whether `s[lo..]` begins with `p`.
pub fn starts_with_at(s: &[char], lo: usize, p: &[char]) -> (b: bool)
    requires
        lo <= s@.len(),
    ensures
        b == has_prefix(s@.subrange(lo as int, s@.len() as int), p@),
{
    let b = chars_match_at(s, p, lo);
    proof {
        let t = s@.subrange(lo as int, s@.len() as int);
        if p@.len() <= t.len() {
            assert(t.subrange(0, p@.len() as int) =~= s@.subrange(lo as int, lo + p@.len()));
        }
    }
    b
}

/// Whether `s` ends with `p`.
pub fn ends_with_chars(s: &[char], p: &[char]) -> (b: bool)
    ensures
        b == has_suffix(s@, p@),
{
    if p.len() > s.len() {
        return false;
    }
    chars_match_at(s, p, s.len() - p.len())
}

/// Whether `s` contains `p` (`str::contains`).
pub fn contains_chars(s: &[char], p: &[char]) -> (b: bool)
    ensures
        b == contains_seq(s@, p@),
{
    find_chars(s, p, 0).is_some()
}

/// Whether string `s` contains string `p`.
pub fn str_contains(s: &str, p: &str) -> (b: bool)
    ensures
        b == contains_seq(s@, p@),
{
    let sc = chars_of(s);
    let pc = chars_of(p);
    contains_chars(&sc, &pc)
}

/// Whether string `s` begins with string `p`.
pub fn str_starts_with(s: &str, p: &str) -> (b: bool)
    ensures
        b == has_prefix(s@, p@),
{
    let sc = chars_of(s);
    let pc = chars_of(p);
    let b = starts_with_at(&sc, 0, &pc);
    proof {
        assert(sc@.subrange(0, sc@.len() as int) =~= sc@);
    }
    b
}

/// Whether string `s` ends with string `p`.
pub fn str_ends_with(s: &str, p: &str) -> (b: bool)
    ensures
        b == has_suffix(s@, p@),
{
    let sc = chars_of(s);
    let pc = chars_of(p);
    ends_with_chars(&sc, &pc)
}

/// Whether two strings are equal.
pub fn str_eq(a: &str, b: &str) -> (r: bool)
    ensures
        r == (a@ == b@),
{
    let ac = chars_of(a);
    let bc = chars_of(b);
    if ac.len() != bc.len() {
        return false;
    }
    let r = chars_match_at(&ac, &bc, 0);
    proof {
        if r {
            assert(ac@.subrange(0, bc@.len() as int) =~= ac@);
        } else {
            if ac@ == bc@ {
                assert(ac@.subrange(0, bc@.len() as int) =~= ac@);
            }
        }
    }
    r
}


/// The decimal digit character for `d < 10`.
pub open spec fn digit_char(d: nat) -> char {
    (48 + d) as char
}

/// The decimal representation of `n`, as `Display` writes it.
pub open spec fn decimal(n: nat) -> Seq<char>
    decreases n,
{
    if n < 10 {
        seq![digit_char(n)]
    } else {
        decimal(n / 10).push(digit_char(n % 10))
    }
}

/// Appends the decimal representation of `n` to `out`.
pub fn push_decimal(out: &mut Vec<char>, n: u64)
    ensures
        final(out)@ == old(out)@ + decimal(n as nat),
    decreases n,
{
    let ghost start = out@;
    if n >= 10 {
        push_decimal(out, n / 10);
    }
    let d = (n % 10) as u8;
    let c = (48u8 + d) as char;
    out.push(c);
    proof {
        if n >= 10 {
            assert(start + decimal(n as nat) =~= (start + decimal((n / 10) as nat)).push(c));
        } else {
            assert(start + decimal(n as nat) =~= start.push(c));
        }
    }
}

/// The decimal representation of `n` as a string.
pub fn decimal_string(n: u64) -> (s: String)
    ensures
        s@ == decimal(n as nat),
{
    let mut v: Vec<char> = Vec::new();
    push_decimal(&mut v, n);
    proof {
        assert(Seq::<char>::empty() + decimal(n as nat) =~= decimal(n as nat));
    }
    string_of(&v)
}

/// `c` is an ASCII decimal digit.
pub open spec fn is_digit(c: char) -> bool {
    48 <= (c as u32) && (c as u32) <= 57
}

/// Every character of `d` is a decimal digit.
pub open spec fn all_digits(d: Seq<char>) -> bool {
    forall|i: int| 0 <= i < d.len() ==> is_digit(#[trigger] d[i])
}

/// The number that the digit string `d` denotes.
pub open spec fn digits_value(d: Seq<char>) -> nat
    decreases d.len(),
{
    if d.len() == 0 {
        0
    } else {
        digits_value(d.drop_last()) * 10 + ((d.last() as u32) - 48) as nat
    }
}

/// What `str::parse::<usize>` accepts and returns: an optional `+`, then one
/// or more decimal digits whose value fits in a `usize`.
pub open spec fn parse_usize(s: Seq<char>) -> Option<nat> {
    let d = if s.len() > 0 && s[0] == '+' {
        s.drop_first()
    } else {
        s
    };
    if d.len() > 0 && all_digits(d) && digits_value(d) <= usize::MAX {
        Some(digits_value(d))
    } else {
        None
    }
}

/// A prefix of a digit string never denotes more than the whole.
pub proof fn lemma_digits_prefix(d: Seq<char>, k: int)
    requires
        0 <= k <= d.len(),
        all_digits(d),
    ensures
        digits_value(d.take(k)) <= digits_value(d),
    decreases d.len(),
{
    if k == d.len() {
        assert(d.take(k) =~= d);
    } else {
        let e = d.drop_last();
        assert(d.take(k) =~= e.take(k));
        assert(all_digits(e)) by {
            assert forall|i: int| 0 <= i < e.len() implies is_digit(#[trigger] e[i]) by {
                assert(e[i] == d[i]);
            }
        }
        lemma_digits_prefix(e, k);
    }
}

/// Parses `s[lo..hi]` as `str::parse::<usize>` does.
pub fn parse_usize_range(s: &[char], lo: usize, hi: usize) -> (r: Option<usize>)
    requires
        lo <= hi <= s@.len(),
    ensures
        match r {
            Some(v) => parse_usize(s@.subrange(lo as int, hi as int)) == Some(v as nat),
            None => parse_usize(s@.subrange(lo as int, hi as int)) is None,
        },
{
    let ghost t = s@.subrange(lo as int, hi as int);
    let mut start = lo;
    if lo < hi && s[lo] == '+' {
        start = lo + 1;
    }
    let ghost d = s@.subrange(start as int, hi as int);
    assert(d =~= (if t.len() > 0 && t[0] == '+' { t.drop_first() } else { t }));
    if start >= hi {
        return None;
    }
    let ghost want = if d.len() > 0 && all_digits(d) && digits_value(d) <= usize::MAX {
        Some(digits_value(d))
    } else {
        None
    };
    assert(parse_usize(t) == want);
    let mut v: u128 = 0;
    let mut i = start;
    while i < hi
        invariant
            start <= i <= hi <= s@.len(),
            d == s@.subrange(start as int, hi as int),
            d.len() > 0,
            t == s@.subrange(lo as int, hi as int),
            parse_usize(t) == want,
            want == (if d.len() > 0 && all_digits(d) && digits_value(d) <= usize::MAX {
                Some(digits_value(d))
            } else {
                None
            }),
            v as nat == digits_value(d.take(i - start)),
            all_digits(d.take(i - start)),
            v <= usize::MAX,
        decreases hi - i,
    {
        let c = s[i];
        let cu = c as u32;
        if cu < 48 || cu > 57 {
            assert(!is_digit(d[i - start]));
            return None;
        }
        proof {
            assert(d.take(i - start + 1).drop_last() =~= d.take(i - start));
            assert(d.take(i - start + 1).last() == c);
        }
        v = v * 10 + ((cu - 48) as u128);
        assert(all_digits(d.take(i - start + 1))) by {
            assert forall|m: int| 0 <= m < d.take(i - start + 1).len() implies is_digit(
                #[trigger] d.take(i - start + 1)[m],
            ) by {
                if m < i - start {
                    assert(d.take(i - start + 1)[m] == d.take(i - start)[m]);
                }
            }
        }
        if v > usize::MAX as u128 {
            proof {
                if all_digits(d) {
                    lemma_digits_prefix(d, i - start + 1);
                }
            }
            return None;
        }
        i += 1;
    }
    assert(d.take(i - start) =~= d);
    Some(v as usize)
}

/// `l` without one trailing carriage return.
pub open spec fn strip_cr(l: Seq<char>) -> Seq<char> {
    if l.len() > 0 && l.last() == '\r' {
        l.drop_last()
    } else {
        l
    }
}

/// The lines of `s[i..]` as `str::lines` yields them: split after each `\n`,
/// the `\n` and one `\r` before it removed; a final piece without `\n` is
/// kept as it stands, and nothing follows a final `\n`.
pub open spec fn lines_from(s: Seq<char>, i: int) -> Seq<Seq<char>>
    decreases s.len() - i,
{
    if i < 0 || i >= s.len() {
        seq![]
    } else {
        match find_from(s, seq!['\n'], i) {
            None => seq![s.subrange(i, s.len() as int)],
            Some(j) => {
                proof {
                    lemma_find_from(s, seq!['\n'], i);
                }
                seq![strip_cr(s.subrange(i, j))] + lines_from(s, j + 1)
            },
        }
    }
}

/// The lines of `s` (`str::lines`).
pub open spec fn lines(s: Seq<char>) -> Seq<Seq<char>> {
    lines_from(s, 0)
}

/// The lines from `k + i` on are those of the text from `k` on, from `i`.
pub proof fn lemma_lines_from_shift(s: Seq<char>, k: int, i: int)
    requires
        0 <= k <= s.len(),
        0 <= i,
    ensures
        lines_from(s, k + i) == lines_from(s.subrange(k, s.len() as int), i),
    decreases s.len() - (k + i),
{
    let t = s.subrange(k, s.len() as int);
    let nl = seq!['\n'];
    if k + i < s.len() {
        crate::tools::lemma_find_shift(s, nl, k + i);
        crate::tools::lemma_find_shift(t, nl, i);
        assert(s.subrange(k + i, s.len() as int) =~= t.subrange(i, t.len() as int));
        lemma_find_from(s, nl, k + i);
        match find_from(s, nl, k + i) {
            None => {
                assert(s.subrange(k + i, s.len() as int) =~= t.subrange(i, t.len() as int));
            },
            Some(j) => {
                assert(s.subrange(k + i, j) =~= t.subrange(i, j - k));
                lemma_lines_from_shift(s, k, j - k + 1);
            },
        }
    }
}

/// A line without `\n` followed by `\n` is the first line, and the lines
/// of what follows come after it.
pub proof fn lemma_lines_split(x: Seq<char>, y: Seq<char>)
    requires
        forall|k: int| 0 <= k < x.len() ==> x[k] != '\n',
    ensures
        lines(x + seq!['\n'] + y) == seq![strip_cr(x)] + lines(y),
{
    let s = x + seq!['\n'] + y;
    let nl = seq!['\n'];
    let n = x.len() as int;
    assert(s.subrange(n, n + 1) =~= nl);
    assert forall|k: int| 0 <= k < x.len() implies !matches_at(s, nl, k) by {
        assert(s.subrange(k, k + 1)[0] == x[k]);
    }
    crate::tools::lemma_find_first(s, nl, 0, n);
    assert(s.subrange(0, n) =~= x);
    lemma_lines_from_shift(s, n + 1, 0);
    assert(s.subrange(n + 1, s.len() as int) =~= y);
}

/// The views of a sequence of strings.
pub open spec fn views(v: Seq<String>) -> Seq<Seq<char>> {
    v.map_values(|x: String| x@)
}

/// `views` of a pushed sequence.
pub proof fn lemma_views_push(v: Seq<String>, x: String)
    ensures
        views(v.push(x)) == views(v).push(x@),
{
    assert(views(v.push(x)) =~= views(v).push(x@));
}

/// The bounds of each line of `s[..]`, as `str::lines` yields them.
pub fn line_bounds(s: &[char]) -> (r: Vec<(usize, usize)>)
    ensures
        r@.len() == lines(s@).len(),
        forall|k: int|
            0 <= k < r@.len() ==> {
                &&& (#[trigger] r@[k]).0 <= r@[k].1 <= s@.len()
                &&& s@.subrange(r@[k].0 as int, r@[k].1 as int) == lines(s@)[k]
            },
{
    let nl: Vec<char> = vec!['\n'];
    assert(nl@ =~= seq!['\n']);
    let mut r: Vec<(usize, usize)> = Vec::new();
    let mut i: usize = 0;
    let ghost done: Seq<Seq<char>> = seq![];
    while i < s.len()
        invariant
            i <= s@.len(),
            nl@ == seq!['\n'],
            r@.len() == done.len(),
            done + lines_from(s@, i as int) == lines(s@),
            forall|k: int|
                0 <= k < r@.len() ==> {
                    &&& (#[trigger] r@[k]).0 <= r@[k].1 <= s@.len()
                    &&& s@.subrange(r@[k].0 as int, r@[k].1 as int) == done[k]
                },
        decreases s@.len() - i,
    {
        match find_chars(s, &nl, i) {
            None => {
                r.push((i, s.len()));
                proof {
                    assert(lines_from(s@, i as int) == seq![s@.subrange(i as int, s@.len() as int)]);
                    assert(lines_from(s@, s@.len() as int) =~= Seq::<Seq<char>>::empty());
                    done = done.push(s@.subrange(i as int, s@.len() as int));
                    assert(done + lines_from(s@, s@.len() as int) =~= done);
                }
                i = s.len();
            },
            Some(j) => {
                proof {
                    lemma_find_from(s@, seq!['\n'], i as int);
                }
                let mut end = j;
                if j > i && s[j - 1] == '\r' {
                    end = j - 1;
                }
                proof {
                    assert(s@.subrange(i as int, end as int) == strip_cr(s@.subrange(i as int, j as int))) by {
                        if j > i && s@[j - 1] == '\r' {
                            assert(s@.subrange(i as int, j as int).drop_last() =~= s@.subrange(i as int, j - 1));
                        }
                    }
                    let old_done = done;
                    done = done.push(strip_cr(s@.subrange(i as int, j as int)));
                    assert(done + lines_from(s@, j + 1) =~= old_done + lines_from(s@, i as int));
                }
                r.push((i, end));
                i = j + 1;
            },
        }
    }
    proof {
        assert(lines_from(s@, i as int) =~= Seq::<Seq<char>>::empty());
        assert(done + lines_from(s@, i as int) =~= done);
    }
    r
}

/// The lines of `s` as strings (`str::lines`, each line owned).
pub fn lines_of(s: &str) -> (out: Vec<String>)
    ensures
        views(out@) == lines(s@),
{
    let cs = chars_of(s);
    let b = line_bounds(&cs);
    let mut out: Vec<String> = Vec::new();
    let mut k: usize = 0;
    while k < b.len()
        invariant
            k <= b@.len(),
            cs@ == s@,
            b@.len() == lines(s@).len(),
            forall|m: int|
                0 <= m < b@.len() ==> {
                    &&& (#[trigger] b@[m]).0 <= b@[m].1 <= cs@.len()
                    &&& cs@.subrange(b@[m].0 as int, b@[m].1 as int) == lines(s@)[m]
                },
            views(out@) == lines(s@).take(k as int),
        decreases b@.len() - k,
    {
        let (lo, hi) = b[k];
        let line = string_of_range(&cs, lo, hi);
        let ghost old_out = out@;
        out.push(line);
        proof {
            lemma_views_push(old_out, line);
            assert(lines(s@).take(k + 1) =~= lines(s@).take(k as int).push(lines(s@)[k as int]));
        }
        k += 1;
    }
    proof {
        assert(lines(s@).take(k as int) =~= lines(s@));
    }
    out
}


/// What `str::replace` returns for `s[i..]` and a non-empty pattern `from`:
/// every occurrence, taken left to right without overlap, becomes `to`.
pub open spec fn replace_from(s: Seq<char>, from: Seq<char>, to: Seq<char>, i: int) -> Seq<char>
    decreases s.len() - i,
{
    if i < 0 || i > s.len() || from.len() == 0 {
        seq![]
    } else {
        match find_from(s, from, i) {
            None => s.subrange(i, s.len() as int),
            Some(j) => {
                proof {
                    lemma_find_from(s, from, i);
                }
                s.subrange(i, j) + to + replace_from(s, from, to, j + from.len())
            },
        }
    }
}

/// What `str::replace(from, to)` returns on `s`, for a non-empty `from`.
pub open spec fn replace_all(s: Seq<char>, from: Seq<char>, to: Seq<char>) -> Seq<char> {
    replace_from(s, from, to, 0)
}

/// `str::replace` on character sequences, for a non-empty pattern.
pub fn replace_chars(s: &[char], from: &[char], to: &[char]) -> (out: Vec<char>)
    requires
        from@.len() > 0,
    ensures
        out@ == replace_all(s@, from@, to@),
{
    let mut out: Vec<char> = Vec::new();
    let mut i: usize = 0;
    loop
        invariant
            i <= s@.len(),
            from@.len() > 0,
            out@ + replace_from(s@, from@, to@, i as int) == replace_all(s@, from@, to@),
        decreases s@.len() - i,
    {
        match find_chars(s, from, i) {
            None => {
                let ghost before = out@;
                let mut k = i;
                while k < s.len()
                    invariant
                        i <= k <= s@.len(),
                        out@ == before + s@.subrange(i as int, k as int),
                    decreases s@.len() - k,
                {
                    out.push(s[k]);
                    proof {
                        assert(before + s@.subrange(i as int, k + 1) =~= (before + s@.subrange(
                            i as int,
                            k as int,
                        )).push(s@[k as int]));
                    }
                    k += 1;
                }
                return out;
            },
            Some(j) => {
                proof {
                    lemma_find_from(s@, from@, i as int);
                }
                let ghost before = out@;
                let mut k = i;
                while k < j
                    invariant
                        i <= k <= j <= s@.len(),
                        out@ == before + s@.subrange(i as int, k as int),
                    decreases j - k,
                {
                    out.push(s[k]);
                    proof {
                        assert(before + s@.subrange(i as int, k + 1) =~= (before + s@.subrange(
                            i as int,
                            k as int,
                        )).push(s@[k as int]));
                    }
                    k += 1;
                }
                let ghost mid = out@;
                let mut m: usize = 0;
                while m < to.len()
                    invariant
                        m <= to@.len(),
                        out@ == mid + to@.take(m as int),
                    decreases to@.len() - m,
                {
                    out.push(to[m]);
                    proof {
                        assert(mid + to@.take(m + 1) =~= (mid + to@.take(m as int)).push(
                            to@[m as int],
                        ));
                    }
                    m += 1;
                }
                proof {
                    assert(to@.take(to@.len() as int) =~= to@);
                    assert(out@ + replace_from(s@, from@, to@, j + from@.len()) =~= before
                        + replace_from(s@, from@, to@, i as int));
                }
                let n = s.len();
                assert(j + from@.len() <= n);
                i = j + from.len();
            },
        }
    }
}

/// `str::replace(from, to)` on strings, for a non-empty `from`.
pub fn replace_str(s: &str, from: &str, to: &str) -> (out: String)
    requires
        from@.len() > 0,
    ensures
        out@ == replace_all(s@, from@, to@),
{
    let sc = chars_of(s);
    let fc = chars_of(from);
    let tc = chars_of(to);
    let r = replace_chars(&sc, &fc, &tc);
    string_of(&r)
}

/// The two sides of the first `c` in `s` (`str::split_once` with a char).
pub open spec fn split_once(s: Seq<char>, c: char) -> Option<(Seq<char>, Seq<char>)> {
    match find_from(s, seq![c], 0) {
        Some(i) => Some((s.subrange(0, i), s.subrange(i + 1, s.len() as int))),
        None => None,
    }
}

/// `str::split_once(c)`.
pub fn split_once_str(s: &str, c: char) -> (r: Option<(String, String)>)
    ensures
        match r {
            Some((a, b)) => split_once(s@, c) == Some((a@, b@)),
            None => split_once(s@, c) is None,
        },
{
    let cs = chars_of(s);
    let pat: Vec<char> = vec![c];
    assert(pat@ =~= seq![c]);
    match find_chars(&cs, &pat, 0) {
        Some(i) => {
            proof {
                lemma_find_from(cs@, pat@, 0);
            }
            let n = cs.len();
            assert(i < n);
            let a = string_of_range(&cs, 0, i);
            let b = string_of_range(&cs, i + 1, cs.len());
            Some((a, b))
        },
        None => None,
    }
}

/// `s` without the prefix `p`, if it begins with it (`str::strip_prefix`).
pub open spec fn strip_prefix(s: Seq<char>, p: Seq<char>) -> Option<Seq<char>> {
    if has_prefix(s, p) {
        Some(s.subrange(p.len() as int, s.len() as int))
    } else {
        None
    }
}

/// `str::strip_prefix`.
pub fn strip_prefix_str(s: &str, p: &str) -> (r: Option<String>)
    ensures
        match r {
            Some(t) => strip_prefix(s@, p@) == Some(t@),
            None => strip_prefix(s@, p@) is None,
        },
{
    let sc = chars_of(s);
    let pc = chars_of(p);
    if starts_with_at(&sc, 0, &pc) {
        proof {
            assert(sc@.subrange(0, sc@.len() as int) =~= sc@);
        }
        Some(string_of_range(&sc, pc.len(), sc.len()))
    } else {
        proof {
            assert(sc@.subrange(0, sc@.len() as int) =~= sc@);
        }
        None
    }
}

/// Whether `s` is one of `v`.
pub fn contains_string(v: &Vec<String>, s: &str) -> (b: bool)
    ensures
        b == views(v@).contains(s@),
{
    let mut i: usize = 0;
    while i < v.len()
        invariant
            i <= v@.len(),
            forall|k: int| 0 <= k < i ==> v@[k]@ != s@,
        decreases v@.len() - i,
    {
        if str_eq(v[i].as_str(), s) {
            assert(views(v@)[i as int] == s@);
            return true;
        }
        i += 1;
    }
    proof {
        if views(v@).contains(s@) {
            let k = choose|k: int| 0 <= k < views(v@).len() && views(v@)[k] == s@;
            assert(v@[k]@ == s@);
        }
    }
    false
}

/// Adds `s` to the list `v` of distinct strings, unless it is there.
pub fn push_unique(v: &mut Vec<String>, s: &str)
    requires
        views(old(v)@).no_duplicates(),
    ensures
        views(final(v)@).no_duplicates(),
        forall|p: Seq<char>| #[trigger]
            views(final(v)@).contains(p) <==> (views(old(v)@).contains(p) || p == s@),
{
    if contains_string(v, s) {
        return;
    }
    let ghost old_v = v@;
    v.push(s.to_owned());
    proof {
        lemma_views_push(old_v, v@.last());
        let w = views(v@);
        let w0 = views(old_v);
        assert(w =~= w0.push(s@));
        assert forall|a: int, b: int| 0 <= a < w.len() && 0 <= b < w.len() && a != b implies w[a]
            != w[b] by {
            if a < w0.len() && b < w0.len() {
                assert(w[a] == w0[a]);
                assert(w[b] == w0[b]);
            } else if a < w0.len() {
                assert(w[a] == w0[a]);
            } else {
                assert(w[b] == w0[b]);
            }
        }
        assert forall|p: Seq<char>| #[trigger] w.contains(p) <==> (w0.contains(p) || p == s@) by {
            if w.contains(p) {
                let k = choose|k: int| 0 <= k < w.len() && w[k] == p;
                if k < w0.len() {
                    assert(w0[k] == p);
                }
            }
            if w0.contains(p) {
                let k = choose|k: int| 0 <= k < w0.len() && w0[k] == p;
                assert(w[k] == p);
            }
            if p == s@ {
                assert(w[w0.len() as int] == p);
            }
        }
    }
}

/// The strings `v` with `sep` between each two (`[String]::join`).
pub open spec fn joined(v: Seq<Seq<char>>, sep: Seq<char>) -> Seq<char>
    decreases v.len(),
{
    if v.len() == 0 {
        seq![]
    } else if v.len() == 1 {
        v[0]
    } else {
        joined(v.drop_last(), sep) + sep + v.last()
    }
}

/// `[String]::join`.
pub fn join_strings(v: &Vec<String>, sep: &str) -> (r: String)
    ensures
        r@ == joined(views(v@), sep@),
{
    let mut r = String::new();
    let mut i: usize = 0;
    while i < v.len()
        invariant
            i <= v@.len(),
            r@ == joined(views(v@).take(i as int), sep@),
        decreases v@.len() - i,
    {
        let ghost t = views(v@).take(i + 1);
        proof {
            assert(t.drop_last() =~= views(v@).take(i as int));
            if i == 0 {
                assert(Seq::<char>::empty() + v@[0]@ =~= v@[0]@);
            }
        }
        if i > 0 {
            push_str(&mut r, sep);
        }
        push_str(&mut r, v[i].as_str());
        i += 1;
    }
    proof {
        assert(views(v@).take(i as int) =~= views(v@));
        if i == 0 {
            assert(r@ =~= Seq::<char>::empty());
        }
    }
    r
}

/// `s` without the suffix `p`, if it ends with it (`str::strip_suffix`).
pub open spec fn strip_suffix(s: Seq<char>, p: Seq<char>) -> Option<Seq<char>> {
    if has_suffix(s, p) {
        Some(s.subrange(0, s.len() - p.len()))
    } else {
        None
    }
}

/// `str::strip_suffix`.
pub fn strip_suffix_str(s: &str, p: &str) -> (r: Option<String>)
    ensures
        match r {
            Some(t) => strip_suffix(s@, p@) == Some(t@),
            None => strip_suffix(s@, p@) is None,
        },
{
    let sc = chars_of(s);
    let pc = chars_of(p);
    if ends_with_chars(&sc, &pc) {
        Some(string_of_range(&sc, 0, sc.len() - pc.len()))
    } else {
        None
    }
}

/// The last line of `s`, or nothing when it has no lines.
pub open spec fn last_line(s: Seq<char>) -> Seq<char> {
    if lines(s).len() == 0 {
        seq![]
    } else {
        lines(s).last()
    }
}

/// The last line of `s` (`s.lines().last().unwrap_or("")`).
pub fn last_line_of(s: &str) -> (r: String)
    ensures
        r@ == last_line(s@),
{
    let ls = lines_of(s);
    if ls.len() == 0 {
        String::new()
    } else {
        let n = ls.len();
        ls[n - 1].clone()
    }
}

} // verus!
