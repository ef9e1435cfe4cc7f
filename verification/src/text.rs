//! Byte-level text helpers for the line-based control protocol: splitting at
//! whitespace, decimal and hexadecimal numbers, dotted IPv4 addresses and
//! substring search. All of it works on ASCII bytes.

use vstd::prelude::*;
use vstd::slice::slice_subrange;
use vstd::slice::slice_to_vec;

verus! {

/// Whether `b` is ASCII whitespace: space, tab, line feed, vertical tab,
/// form feed or carriage return.
pub open spec fn spec_is_space(b: u8) -> bool {
    b == 32 || (9 <= b && b <= 13)
}

/// Whether `b` is an ASCII decimal digit.
pub open spec fn spec_is_digit(b: u8) -> bool {
    48 <= b && b <= 57
}

/// Whether every byte of `s` is a decimal digit.
pub open spec fn spec_all_digits(s: Seq<u8>) -> bool {
    forall|i: int| 0 <= i < s.len() ==> spec_is_digit(#[trigger] s[i])
}

/// The number that the decimal digits of `s` spell.
pub open spec fn spec_decimal_value(s: Seq<u8>) -> nat
    decreases s.len(),
{
    if s.len() == 0 {
        0
    } else {
        spec_decimal_value(s.drop_last()) * 10 + (s.last() - 48) as nat
    }
}

/// The unsigned number that `s` spells, if it is at most `max`: an optional
/// `+`, then one or more decimal digits.
pub open spec fn spec_parse_uint(s: Seq<u8>, max: nat) -> Option<nat> {
    let digits = if s.len() > 0 && s[0] == 43 {
        s.drop_first()
    } else {
        s
    };
    if digits.len() > 0 && spec_all_digits(digits) && spec_decimal_value(digits) <= max {
        Some(spec_decimal_value(digits))
    } else {
        None
    }
}

/// The end of the run of non-space bytes that starts at `i`.
pub open spec fn spec_token_end(s: Seq<u8>, i: int) -> int
    decreases s.len() - i,
{
    if i < 0 || i >= s.len() || spec_is_space(s[i]) {
        i
    } else {
        spec_token_end(s, i + 1)
    }
}

/// The whitespace-separated tokens of `s` from position `i` on.
pub open spec fn spec_tokens_from(s: Seq<u8>, i: int) -> Seq<Seq<u8>>
    decreases s.len() - i,
{
    if i < 0 || i >= s.len() {
        Seq::empty()
    } else if spec_is_space(s[i]) {
        spec_tokens_from(s, i + 1)
    } else {
        let end = spec_token_end(s, i);
        if i < end <= s.len() {
            seq![s.subrange(i, end)] + spec_tokens_from(s, end)
        } else {
            Seq::empty()
        }
    }
}

/// The whitespace-separated tokens of `s`: its maximal runs of non-space
/// bytes, in order.
pub open spec fn spec_tokens(s: Seq<u8>) -> Seq<Seq<u8>> {
    spec_tokens_from(s, 0)
}

/// The contents of each of `tokens`.
pub open spec fn spec_views(tokens: Seq<Vec<u8>>) -> Seq<Seq<u8>> {
    tokens.map_values(|t: Vec<u8>| t@)
}

/// Whether `needle` stands in `hay` at position `at`.
pub open spec fn spec_matches_at(hay: Seq<u8>, needle: Seq<u8>, at: int) -> bool {
    0 <= at && at + needle.len() <= hay.len() && hay.subrange(at, at + needle.len()) == needle
}

/// Whether `needle` occurs somewhere in `hay`.
pub open spec fn spec_contains(hay: Seq<u8>, needle: Seq<u8>) -> bool {
    exists|at: int| spec_matches_at(hay, needle, at)
}

/// Whether `s` begins with `prefix`.
pub open spec fn spec_starts_with(s: Seq<u8>, prefix: Seq<u8>) -> bool {
    spec_matches_at(s, prefix, 0)
}

/// The value of the hexadecimal digit `b`, in either case.
pub open spec fn spec_hex_digit(b: u8) -> Option<u8> {
    if 48 <= b && b <= 57 {
        Some((b - 48) as u8)
    } else if 97 <= b && b <= 102 {
        Some((b - 87) as u8)
    } else if 65 <= b && b <= 70 {
        Some((b - 55) as u8)
    } else {
        None
    }
}

/// The position of the first `b` in `s` at or after `from`, or the length
/// of `s` when there is none.
pub open spec fn spec_find(s: Seq<u8>, b: u8, from: int) -> int
    decreases s.len() - from,
{
    if from < 0 || from >= s.len() {
        s.len() as int
    } else if s[from] == b {
        from
    } else {
        spec_find(s, b, from + 1)
    }
}

/// One part of a dotted address: one to three digits, no leading zero
/// before another digit, at most 255.
pub open spec fn spec_octet(s: Seq<u8>) -> Option<u8> {
    if 1 <= s.len() <= 3 && spec_all_digits(s) && (s.len() == 1 || s[0] != 48)
        && spec_decimal_value(s) <= 255 {
        Some(spec_decimal_value(s) as u8)
    } else {
        None
    }
}

/// The address that `s` spells: four octets separated by three dots.
pub open spec fn spec_parse_ipv4(s: Seq<u8>) -> Option<Seq<u8>> {
    let d1 = spec_find(s, 46, 0);
    let d2 = spec_find(s, 46, d1 + 1);
    let d3 = spec_find(s, 46, d2 + 1);
    if d1 < s.len() && d2 < s.len() && d3 < s.len() {
        match (
            spec_octet(s.subrange(0, d1)),
            spec_octet(s.subrange(d1 + 1, d2)),
            spec_octet(s.subrange(d2 + 1, d3)),
            spec_octet(s.subrange(d3 + 1, s.len() as int)),
        ) {
            (Some(a), Some(b), Some(c), Some(d)) => Some(seq![a, b, c, d]),
            _ => None,
        }
    } else {
        None
    }
}

/// Tells whether `b` is ASCII whitespace.
pub fn is_space(b: u8) -> (r: bool)
    ensures
        r == spec_is_space(b),
{
    b == 32 || (9 <= b && b <= 13)
}

/// Tells whether `b` is a decimal digit.
pub fn is_digit(b: u8) -> (r: bool)
    ensures
        r == spec_is_digit(b),
{
    48 <= b && b <= 57
}

/// The value of a prefix of digits never exceeds the value of the whole.
pub proof fn lemma_decimal_prefix(s: Seq<u8>, n: int)
    requires
        0 <= n <= s.len(),
        spec_all_digits(s),
    ensures
        spec_decimal_value(s.subrange(0, n)) <= spec_decimal_value(s),
    decreases s.len() - n,
{
    if n == s.len() {
        assert(s.subrange(0, n) =~= s);
    } else {
        lemma_decimal_prefix(s.drop_last(), n);
        assert(s.drop_last().subrange(0, n) =~= s.subrange(0, n));
        assert(spec_is_digit(s[s.len() - 1]));
    }
}

/// Reads the digits of `s` as a number no larger than `max`.
fn decimal_value(s: &[u8], max: u32) -> (value: Option<u32>)
    ensures
        match value {
            Some(v) => spec_all_digits(s@) && spec_decimal_value(s@) == v && v <= max,
            None => !spec_all_digits(s@) || spec_decimal_value(s@) > max,
        },
{
    let mut acc: u64 = 0;
    let mut i: usize = 0;
    assert(s@.subrange(0, 0) =~= Seq::<u8>::empty());
    while i < s.len()
        invariant
            i <= s@.len(),
            spec_all_digits(s@.subrange(0, i as int)),
            acc == spec_decimal_value(s@.subrange(0, i as int)),
            acc <= max,
        decreases s@.len() - i,
    {
        let b: u8 = s[i];
        if !is_digit(b) {
            return None;
        }
        proof {
            let next = s@.subrange(0, i + 1);
            assert(next.drop_last() =~= s@.subrange(0, i as int));
            assert(next.last() == b);
            assert forall|j: int| 0 <= j < next.len() implies spec_is_digit(
                #[trigger] next[j],
            ) by {
                if j < i {
                    assert(next[j] == s@.subrange(0, i as int)[j]);
                }
            }
        }
        acc = acc * 10 + (b - 48) as u64;
        i += 1;
        if acc > max as u64 {
            proof {
                if spec_all_digits(s@) {
                    lemma_decimal_prefix(s@, i as int);
                }
            }
            return None;
        }
    }
    assert(s@.subrange(0, i as int) =~= s@);
    Some(acc as u32)
}

/// Parses an unsigned decimal number no larger than `max`: an optional `+`
/// and at least one digit. Anything else, or a larger number, is `None`.
pub fn parse_uint(s: &[u8], max: u32) -> (value: Option<u32>)
    ensures
        match value {
            Some(v) => spec_parse_uint(s@, max as nat) == Some(v as nat),
            None => spec_parse_uint(s@, max as nat) is None,
        },
{
    let start: usize = if s.len() > 0 && s[0] == 43 {
        1
    } else {
        0
    };
    let digits = slice_subrange(s, start, s.len());
    assert(start == 1 ==> digits@ =~= s@.drop_first());
    assert(start == 0 ==> digits@ =~= s@);
    if digits.len() == 0 {
        return None;
    }
    decimal_value(digits, max)
}

/// Finds the first `b` in `s` at or after `from`; the length of `s` when
/// there is none.
pub fn find_byte(s: &[u8], b: u8, from: usize) -> (at: usize)
    ensures
        at == spec_find(s@, b, from as int),
        from <= s@.len() ==> from <= at <= s@.len(),
        at < s@.len() ==> s@[at as int] == b,
{
    let mut i: usize = from;
    if from >= s.len() {
        return s.len();
    }
    while i < s.len() && s[i] != b
        invariant
            from <= i <= s@.len(),
            spec_find(s@, b, from as int) == spec_find(s@, b, i as int),
        decreases s@.len() - i,
    {
        i += 1;
    }
    i
}

/// Parses one part of a dotted address.
fn parse_octet(s: &[u8]) -> (octet: Option<u8>)
    ensures
        octet == spec_octet(s@),
{
    if s.len() < 1 || s.len() > 3 {
        return None;
    }
    if s.len() > 1 && s[0] == 48 {
        return None;
    }
    match decimal_value(s, 255) {
        Some(v) => Some(v as u8),
        None => None,
    }
}

/// Parses a dotted IPv4 address such as `239.1.2.3`.
pub fn parse_ipv4(s: &[u8]) -> (addr: Option<[u8; 4]>)
    ensures
        match addr {
            Some(a) => spec_parse_ipv4(s@) == Some(a@),
            None => spec_parse_ipv4(s@) is None,
        },
{
    let n: usize = s.len();
    let d1: usize = find_byte(s, 46, 0);
    if d1 >= n {
        return None;
    }
    let d2: usize = find_byte(s, 46, d1 + 1);
    if d2 >= n {
        return None;
    }
    let d3: usize = find_byte(s, 46, d2 + 1);
    if d3 >= n {
        return None;
    }
    let a = parse_octet(slice_subrange(s, 0, d1));
    let b = parse_octet(slice_subrange(s, d1 + 1, d2));
    let c = parse_octet(slice_subrange(s, d2 + 1, d3));
    let d = parse_octet(slice_subrange(s, d3 + 1, n));
    match (a, b, c, d) {
        (Some(a), Some(b), Some(c), Some(d)) => {
            let addr: [u8; 4] = [a, b, c, d];
            assert(addr@ =~= seq![a, b, c, d]);
            Some(addr)
        },
        _ => None,
    }
}

/// Reads one hexadecimal digit, in either case.
pub fn hex_digit(b: u8) -> (value: Option<u8>)
    ensures
        value == spec_hex_digit(b),
        value is Some ==> value->0 < 16,
{
    if 48 <= b && b <= 57 {
        Some(b - 48)
    } else if 97 <= b && b <= 102 {
        Some(b - 87)
    } else if 65 <= b && b <= 70 {
        Some(b - 55)
    } else {
        None
    }
}

/// Tells whether `needle` stands in `hay` at position `at`.
pub fn matches_at(hay: &[u8], needle: &[u8], at: usize) -> (r: bool)
    ensures
        r == spec_matches_at(hay@, needle@, at as int),
{
    if needle.len() > hay.len() || at > hay.len() - needle.len() {
        return false;
    }
    let n: usize = hay.len();
    let mut i: usize = 0;
    while i < needle.len()
        invariant
            i <= needle@.len(),
            n == hay@.len(),
            at + needle@.len() <= hay@.len(),
            forall|j: int| 0 <= j < i ==> hay@[at + j] == needle@[j],
        decreases needle@.len() - i,
    {
        if hay[at + i] != needle[i] {
            assert(hay@.subrange(at as int, at + needle@.len())[i as int] != needle@[i as int]);
            return false;
        }
        i += 1;
    }
    assert(hay@.subrange(at as int, at + needle@.len()) =~= needle@);
    true
}

/// Tells whether `s` begins with `prefix`.
pub fn starts_with(s: &[u8], prefix: &[u8]) -> (r: bool)
    ensures
        r == spec_starts_with(s@, prefix@),
{
    matches_at(s, prefix, 0)
}

/// Tells whether the two byte strings are the same.
pub fn bytes_eq(a: &[u8], b: &[u8]) -> (r: bool)
    ensures
        r == (a@ == b@),
{
    if a.len() != b.len() {
        return false;
    }
    let r = matches_at(a, b, 0);
    assert(a@.subrange(0, a@.len() as int) =~= a@);
    r
}

/// Tells whether `needle` occurs somewhere in `hay`.
pub fn contains(hay: &[u8], needle: &[u8]) -> (r: bool)
    ensures
        r == spec_contains(hay@, needle@),
{
    if needle.len() > hay.len() {
        return false;
    }
    let n: usize = hay.len();
    let last: usize = n - needle.len();
    let mut at: usize = 0;
    while at < last
        invariant
            n == hay@.len(),
            last == hay@.len() - needle@.len(),
            at <= last,
            forall|k: int| 0 <= k < at ==> !spec_matches_at(hay@, needle@, k),
        decreases last - at,
    {
        if matches_at(hay, needle, at) {
            return true;
        }
        at += 1;
    }
    matches_at(hay, needle, last)
}

/// The end of the token that starts at `i`.
fn token_end(s: &[u8], i: usize) -> (end: usize)
    requires
        i < s@.len(),
        !spec_is_space(s@[i as int]),
    ensures
        end == spec_token_end(s@, i as int),
        i < end <= s@.len(),
{
    let n: usize = s.len();
    let mut end: usize = i + 1;
    while end < n && !is_space(s[end])
        invariant
            n == s@.len(),
            i < end <= s@.len(),
            spec_token_end(s@, i as int) == spec_token_end(s@, end as int),
        decreases s@.len() - end,
    {
        end += 1;
    }
    end
}

/// Splits `s` at ASCII whitespace; empty tokens do not occur.
pub fn split_tokens(s: &[u8]) -> (tokens: Vec<Vec<u8>>)
    ensures
        spec_views(tokens@) == spec_tokens(s@),
{
    let mut tokens: Vec<Vec<u8>> = Vec::new();
    let mut i: usize = 0;
    assert(spec_views(tokens@) =~= Seq::<Seq<u8>>::empty());
    while i < s.len()
        invariant
            i <= s@.len(),
            spec_tokens(s@) == spec_views(tokens@) + spec_tokens_from(s@, i as int),
        decreases s@.len() - i,
    {
        if is_space(s[i]) {
            i += 1;
        } else {
            let end: usize = token_end(s, i);
            let token = slice_to_vec(slice_subrange(s, i, end));
            let ghost before = tokens@;
            tokens.push(token);
            assert(spec_views(tokens@) =~= spec_views(before) + seq![s@.subrange(
                i as int,
                end as int,
            )]);
            i = end;
        }
    }
    assert(spec_tokens_from(s@, i as int) =~= Seq::<Seq<u8>>::empty());
    tokens
}

/// The decimal digits of `n`, without leading zeros.
pub open spec fn spec_decimal_text(n: nat) -> Seq<u8>
    decreases n,
{
    if n < 10 {
        seq![(48 + n) as u8]
    } else {
        spec_decimal_text(n / 10).push((48 + n % 10) as u8)
    }
}

/// The lowercase hexadecimal digit for `v`, a value below 16.
pub open spec fn spec_hex_char(v: u8) -> u8 {
    if v < 10 {
        (48 + v) as u8
    } else {
        (87 + v) as u8
    }
}

/// Two lowercase hexadecimal digits for each byte of `bytes`.
pub open spec fn spec_hex_text(bytes: Seq<u8>) -> Seq<u8>
    decreases bytes.len(),
{
    if bytes.len() == 0 {
        Seq::empty()
    } else {
        spec_hex_text(bytes.drop_last()) + seq![
            spec_hex_char(bytes.last() / 16),
            spec_hex_char(bytes.last() % 16),
        ]
    }
}

/// Appends the decimal digits of `n` to `out`.
pub fn push_decimal(out: &mut Vec<u8>, n: u32)
    ensures
        final(out)@ == old(out)@ + spec_decimal_text(n as nat),
    decreases n,
{
    if n < 10 {
        out.push(48 + n as u8);
        assert(out@ =~= old(out)@ + spec_decimal_text(n as nat));
    } else {
        push_decimal(out, n / 10);
        out.push(48 + (n % 10) as u8);
        assert(out@ =~= old(out)@ + spec_decimal_text(n as nat));
    }
}

/// Appends two lowercase hexadecimal digits for each byte of `bytes`.
pub fn push_hex(out: &mut Vec<u8>, bytes: &[u8])
    ensures
        final(out)@ == old(out)@ + spec_hex_text(bytes@),
{
    let mut i: usize = 0;
    assert(bytes@.subrange(0, 0) =~= Seq::<u8>::empty());
    assert(out@ =~= old(out)@ + spec_hex_text(bytes@.subrange(0, 0)));
    while i < bytes.len()
        invariant
            i <= bytes@.len(),
            out@ == old(out)@ + spec_hex_text(bytes@.subrange(0, i as int)),
        decreases bytes@.len() - i,
    {
        let b: u8 = bytes[i];
        let hi: u8 = b / 16;
        let lo: u8 = b % 16;
        out.push(if hi < 10 { 48 + hi } else { 87 + hi });
        out.push(if lo < 10 { 48 + lo } else { 87 + lo });
        proof {
            let next = bytes@.subrange(0, i + 1);
            assert(next.drop_last() =~= bytes@.subrange(0, i as int));
            assert(next.last() == b);
            assert(out@ =~= old(out)@ + spec_hex_text(next));
        }
        i += 1;
    }
    assert(bytes@.subrange(0, i as int) =~= bytes@);
}

/// Appends the bytes of `text` to `out`.
pub fn push_bytes(out: &mut Vec<u8>, text: &[u8])
    ensures
        final(out)@ == old(out)@ + text@,
{
    out.extend_from_slice(text);
}

/// The decimal digits of a number are digits, start with no zero unless
/// the number is zero, and spell the number.
pub proof fn lemma_decimal_text(n: nat)
    ensures
        spec_decimal_text(n).len() >= 1,
        spec_all_digits(spec_decimal_text(n)),
        spec_decimal_value(spec_decimal_text(n)) == n,
        n > 0 ==> spec_decimal_text(n)[0] != 48,
        n < 10 ==> spec_decimal_text(n).len() == 1,
        n < 100 ==> spec_decimal_text(n).len() <= 2,
        n < 1000 ==> spec_decimal_text(n).len() <= 3,
    decreases n,
{
    let t = spec_decimal_text(n);
    if n < 10 {
        assert(t.drop_last() =~= Seq::<u8>::empty());
        assert(spec_decimal_value(t.drop_last()) == 0);
    } else {
        lemma_decimal_text(n / 10);
        let head = spec_decimal_text(n / 10);
        assert(t.drop_last() =~= head);
        assert(t.last() == (48 + n % 10) as u8);
        assert(t[0] == head[0]);
        assert forall|i: int| 0 <= i < t.len() implies spec_is_digit(#[trigger] t[i]) by {
            if i < head.len() {
                assert(t[i] == head[i]);
            }
        }
    }
}

/// Reading the decimal digits of a number gives the number back.
pub proof fn lemma_parse_decimal_text(n: nat, max: nat)
    requires
        n <= max,
    ensures
        spec_parse_uint(spec_decimal_text(n), max) == Some(n),
        spec_decimal_text(n).len() > 0,
        forall|i: int|
            0 <= i < spec_decimal_text(n).len() ==> !spec_is_space(
                #[trigger] spec_decimal_text(n)[i],
            ),
        spec_is_digit(spec_decimal_text(n)[0]),
{
    lemma_decimal_text(n);
    let t = spec_decimal_text(n);
    assert(spec_is_digit(t[0]));
    assert forall|i: int| 0 <= i < t.len() implies !spec_is_space(#[trigger] t[i]) by {
        assert(spec_is_digit(t[i]));
    }
}

/// The hexadecimal text of bytes has two digits per byte, the high half
/// first.
pub proof fn lemma_hex_text(bytes: Seq<u8>)
    ensures
        spec_hex_text(bytes).len() == 2 * bytes.len(),
        forall|i: int|
            0 <= i < bytes.len() ==> spec_hex_text(bytes)[2 * i] == spec_hex_char(
                (#[trigger] bytes[i]) / 16,
            ) && spec_hex_text(bytes)[2 * i + 1] == spec_hex_char(bytes[i] % 16),
    decreases bytes.len(),
{
    if bytes.len() > 0 {
        let head = bytes.drop_last();
        lemma_hex_text(head);
        let t = spec_hex_text(bytes);
        assert forall|i: int| 0 <= i < bytes.len() implies t[2 * i] == spec_hex_char(
            (#[trigger] bytes[i]) / 16,
        ) && t[2 * i + 1] == spec_hex_char(bytes[i] % 16) by {
            if i < head.len() {
                assert(head[i] == bytes[i]);
                assert(t[2 * i] == spec_hex_text(head)[2 * i]);
                assert(t[2 * i + 1] == spec_hex_text(head)[2 * i + 1]);
            }
        }
    }
}

/// The first occurrence of a byte is where it stands with none before it.
pub proof fn lemma_find(s: Seq<u8>, b: u8, from: int, at: int)
    requires
        0 <= from <= at < s.len(),
        s[at] == b,
        forall|k: int| from <= k < at ==> s[k] != b,
    ensures
        spec_find(s, b, from) == at,
    decreases at - from,
{
    if from < at {
        lemma_find(s, b, from + 1, at);
    }
}

/// A run of bytes that are not whitespace, with whitespace or the end
/// behind it, is one token.
pub proof fn lemma_token_end(s: Seq<u8>, i: int, end: int)
    requires
        0 <= i <= end <= s.len(),
        forall|k: int| i <= k < end ==> !spec_is_space(s[k]),
        end == s.len() || spec_is_space(s[end]),
    ensures
        spec_token_end(s, i) == end,
    decreases end - i,
{
    if i < end {
        lemma_token_end(s, i + 1, end);
    }
}

/// The tokens behind a position are the tokens of what stands behind it.
pub proof fn lemma_tokens_suffix(s: Seq<u8>, i: int, j: int)
    requires
        0 <= j <= i <= s.len(),
    ensures
        spec_tokens_from(s, i) == spec_tokens_from(s.subrange(j, s.len() as int), i - j),
    decreases s.len() - i,
{
    let t = s.subrange(j, s.len() as int);
    if i < s.len() {
        assert(t[i - j] == s[i]);
        if spec_is_space(s[i]) {
            lemma_tokens_suffix(s, i + 1, j);
        } else {
            lemma_token_end_suffix(s, i, j);
            let end = spec_token_end(s, i);
            lemma_token_end_bounds(s, i);
            assert(s.subrange(i, end) =~= t.subrange(i - j, end - j));
            lemma_tokens_suffix(s, end, j);
        }
    }
}

/// The end of a token lies behind its start and within the text.
pub proof fn lemma_token_end_bounds(s: Seq<u8>, i: int)
    requires
        0 <= i < s.len(),
        !spec_is_space(s[i]),
    ensures
        i < spec_token_end(s, i) <= s.len(),
    decreases s.len() - i,
{
    if i + 1 < s.len() && !spec_is_space(s[i + 1]) {
        lemma_token_end_bounds(s, i + 1);
    } else {
        assert(spec_token_end(s, i + 1) == i + 1);
    }
}

/// The end of a token is the same whether counted in the text or in what
/// stands behind an earlier position.
pub proof fn lemma_token_end_suffix(s: Seq<u8>, i: int, j: int)
    requires
        0 <= j <= i <= s.len(),
    ensures
        spec_token_end(s, i) == spec_token_end(s.subrange(j, s.len() as int), i - j) + j,
    decreases s.len() - i,
{
    let t = s.subrange(j, s.len() as int);
    if i < s.len() {
        assert(t[i - j] == s[i]);
        if !spec_is_space(s[i]) {
            lemma_token_end_suffix(s, i + 1, j);
        }
    }
}

/// The words with one space between each two.
pub open spec fn spec_join(words: Seq<Seq<u8>>) -> Seq<u8>
    decreases words.len(),
{
    if words.len() == 0 {
        Seq::empty()
    } else if words.len() == 1 {
        words[0]
    } else {
        words[0] + seq![32u8] + spec_join(words.drop_first())
    }
}

/// Whether `word` is not empty and holds no whitespace.
pub open spec fn spec_is_word(word: Seq<u8>) -> bool {
    word.len() > 0 && forall|k: int| 0 <= k < word.len() ==> !spec_is_space(#[trigger] word[k])
}

/// Words joined by spaces, with a line feed behind them, split into the
/// same words.
pub proof fn lemma_tokens_of_join(words: Seq<Seq<u8>>)
    requires
        forall|i: int| 0 <= i < words.len() ==> spec_is_word(#[trigger] words[i]),
    ensures
        spec_tokens(spec_join(words) + seq![10u8]) == words,
    decreases words.len(),
{
    let s = spec_join(words) + seq![10u8];
    if words.len() == 0 {
        assert(s =~= seq![10u8]);
        assert(spec_tokens_from(s, 1) =~= Seq::<Seq<u8>>::empty());
        assert(spec_tokens(s) =~= words);
    } else {
        let w = words[0];
        assert(spec_is_word(w));
        let n = w.len() as int;
        assert(s.subrange(0, n) =~= w);
        assert forall|k: int| 0 <= k < n implies !spec_is_space(s[k]) by {
            assert(s[k] == w[k]);
        }
        if words.len() == 1 {
            assert(s =~= w + seq![10u8]);
            lemma_token_end(s, 0, n);
            assert(spec_tokens_from(s, n) == spec_tokens_from(s, n + 1));
            assert(spec_tokens_from(s, n + 1) =~= Seq::<Seq<u8>>::empty());
            assert(spec_tokens(s) =~= seq![w]);
            assert(seq![w] =~= words);
        } else {
            let rest = words.drop_first();
            assert forall|i: int| 0 <= i < rest.len() implies spec_is_word(#[trigger] rest[i]) by {
                assert(rest[i] == words[i + 1]);
            }
            lemma_tokens_of_join(rest);
            let tail = spec_join(rest) + seq![10u8];
            assert(s =~= w + seq![32u8] + tail);
            assert(s[n] == 32u8);
            lemma_token_end(s, 0, n);
            assert(spec_tokens_from(s, n) == spec_tokens_from(s, n + 1));
            lemma_tokens_suffix(s, n + 1, n + 1);
            assert(s.subrange(n + 1, s.len() as int) =~= tail);
            assert(spec_tokens(s) =~= seq![w] + rest);
            assert(seq![w] + rest =~= words);
        }
    }
}

/// Words joined by spaces, without a line end, split into the same words.
pub proof fn lemma_tokens_line(words: Seq<Seq<u8>>)
    requires
        words.len() > 0,
        forall|i: int| 0 <= i < words.len() ==> spec_is_word(#[trigger] words[i]),
    ensures
        spec_tokens(spec_join(words)) == words,
    decreases words.len(),
{
    let s = spec_join(words);
    let w = words[0];
    assert(spec_is_word(w));
    let n = w.len() as int;
    if words.len() == 1 {
        lemma_token_end(s, 0, n);
        assert(s.subrange(0, n) =~= w);
        assert(spec_tokens_from(s, n) =~= Seq::<Seq<u8>>::empty());
        assert(spec_tokens(s) =~= words);
    } else {
        let rest = words.drop_first();
        assert forall|i: int| 0 <= i < rest.len() implies spec_is_word(#[trigger] rest[i]) by {
            assert(rest[i] == words[i + 1]);
        }
        lemma_tokens_line(rest);
        let tail = spec_join(rest);
        assert(s =~= w + seq![32u8] + tail);
        assert(s.subrange(0, n) =~= w);
        assert forall|k: int| 0 <= k < n implies !spec_is_space(s[k]) by {
            assert(s[k] == w[k]);
        }
        assert(s[n] == 32u8);
        lemma_token_end(s, 0, n);
        assert(spec_tokens_from(s, n) == spec_tokens_from(s, n + 1));
        lemma_tokens_suffix(s, n + 1, n + 1);
        assert(s.subrange(n + 1, s.len() as int) =~= tail);
        assert(spec_tokens(s) =~= seq![w] + rest);
        assert(seq![w] + rest =~= words);
    }
}

} // verus!
