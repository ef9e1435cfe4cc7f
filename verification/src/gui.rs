//! The control panel's state and the decisions behind its controls: which
//! address is preselected, what the input fields accept, when a connect
//! request is well-formed and which message the user gets to see.
//!
//! Rendering, timers and the engines themselves are the caller's; it feeds
//! events in and acts on what comes back.

use crate::client::DisconnectReason;
use crate::text::{contains, parse_ipv4, parse_uint, spec_contains, spec_parse_ipv4, spec_parse_uint};
use crate::types::SampleFormat;
use vstd::prelude::*;
use vstd::string::StrSliceExecFns;
use vstd::string::StringExecFns;
use vstd::string::StringSliceAdditionalSpecFns;
use vstd::utf8::encode_utf8;

verus! {

/// The address that stands for every interface.
pub const ANY_ADDRESS: &'static str = "0.0.0.0";

/// The loopback address.
pub const LOOPBACK_ADDRESS: &'static str = "127.0.0.1";

/// Port offered when no free port could be found.
pub const FALLBACK_PORT: u16 = 50000;

/// Language the panel starts in.
pub const DEFAULT_LANG: &'static str = "zh";

/// Most characters the server address field holds.
pub const MAX_IP_CHARS: usize = 15;

/// Most characters the server port field holds.
pub const MAX_PORT_CHARS: usize = 5;

/// The banner shown while no microphone can be opened.
pub const MIC_UNAVAILABLE: &'static str =
    "Microphone unavailable: permission denied or no input device";

/// The word by which a microphone banner is recognised.
pub const MIC_WORD: [u8; 10] = [77, 105, 99, 114, 111, 112, 104, 111, 110, 101];

/// Whether `c` is whitespace in the sense of Unicode's `White_Space`.
pub open spec fn spec_is_whitespace(c: char) -> bool {
    let v = c as u32;
    (9 <= v && v <= 13) || v == 0x20 || v == 0x85 || v == 0xa0 || v == 0x1680 || (0x2000 <= v && v
        <= 0x200a) || v == 0x2028 || v == 0x2029 || v == 0x202f || v == 0x205f || v == 0x3000
}

/// The position of the first character of `s`, at or after `from`, that
/// is not whitespace; the length of `s` when there is none.
pub open spec fn spec_text_start(s: Seq<char>, from: int) -> int
    decreases s.len() - from,
{
    if from < 0 || from >= s.len() {
        s.len() as int
    } else if !spec_is_whitespace(s[from]) {
        from
    } else {
        spec_text_start(s, from + 1)
    }
}

/// The position behind the last character of `s`, before `to`, that is
/// not whitespace; zero when there is none.
pub open spec fn spec_text_end(s: Seq<char>, to: int) -> int
    decreases to,
{
    if to <= 0 || to > s.len() {
        0
    } else if !spec_is_whitespace(s[to - 1]) {
        to
    } else {
        spec_text_end(s, to - 1)
    }
}

/// `s` without the whitespace at its ends.
pub open spec fn spec_trimmed(s: Seq<char>) -> Seq<char> {
    let start = spec_text_start(s, 0);
    let end = spec_text_end(s, s.len() as int);
    if start < end {
        s.subrange(start, end)
    } else {
        Seq::empty()
    }
}

/// Whether the address field takes `c`: a digit or a dot.
pub open spec fn spec_ip_char(c: char) -> bool {
    let v = c as u32;
    (48 <= v && v <= 57) || v == 46
}

/// The characters of `s` that the address field takes.
pub open spec fn spec_ip_chars(s: Seq<char>) -> Seq<char>
    decreases s.len(),
{
    if s.len() == 0 {
        Seq::empty()
    } else if spec_ip_char(s.last()) {
        spec_ip_chars(s.drop_last()).push(s.last())
    } else {
        spec_ip_chars(s.drop_last())
    }
}

/// The first `n` characters of `s`, or all of it.
pub open spec fn spec_take(s: Seq<char>, n: nat) -> Seq<char> {
    if s.len() > n {
        s.subrange(0, n as int)
    } else {
        s
    }
}

/// Tells whether `c` is whitespace.
pub fn is_whitespace(c: char) -> (r: bool)
    ensures
        r == spec_is_whitespace(c),
{
    let v: u32 = c as u32;
    (9 <= v && v <= 13) || v == 0x20 || v == 0x85 || v == 0xa0 || v == 0x1680 || (0x2000 <= v && v
        <= 0x200a) || v == 0x2028 || v == 0x2029 || v == 0x202f || v == 0x205f || v == 0x3000
}

/// Cuts the whitespace off the ends of `s`.
pub fn trimmed(s: &str) -> (text: &str)
    ensures
        text@ == spec_trimmed(s@),
{
    let n: usize = s.unicode_len();
    let mut start: usize = 0;
    while start < n && is_whitespace(s.get_char(start))
        invariant
            n == s@.len(),
            start <= n,
            spec_text_start(s@, 0) == spec_text_start(s@, start as int),
        decreases n - start,
    {
        start += 1;
    }
    let mut end: usize = n;
    while end > 0 && is_whitespace(s.get_char(end - 1))
        invariant
            n == s@.len(),
            end <= n,
            spec_text_end(s@, n as int) == spec_text_end(s@, end as int),
        decreases end,
    {
        end -= 1;
    }
    if start < end {
        s.substring_char(start, end)
    } else {
        let text = s.substring_char(0, 0);
        assert(text@ =~= Seq::<char>::empty());
        text
    }
}

/// Tells whether `s` is empty or all whitespace.
pub fn is_blank(s: &str) -> (blank: bool)
    ensures
        blank == (spec_trimmed(s@).len() == 0),
{
    trimmed(s).unicode_len() == 0
}

/// What the address field holds after `input` was typed: its digits and
/// dots, fifteen at most.
pub fn filter_ip_input(input: &str) -> (text: String)
    ensures
        text@ == spec_take(spec_ip_chars(input@), MAX_IP_CHARS as nat),
{
    let n: usize = input.unicode_len();
    let mut text = String::from_str("");
    let mut kept: usize = 0;
    let mut i: usize = 0;
    proof {
        reveal_strlit("");
        assert(input@.subrange(0, 0) =~= Seq::<char>::empty());
    }
    while i < n
        invariant
            n == input@.len(),
            i <= n,
            kept == text@.len(),
            kept <= MAX_IP_CHARS,
            text@ == spec_take(spec_ip_chars(input@.subrange(0, i as int)), MAX_IP_CHARS as nat),
            kept < MAX_IP_CHARS ==> text@ == spec_ip_chars(input@.subrange(0, i as int)),
            kept == MAX_IP_CHARS ==> spec_ip_chars(input@.subrange(0, i as int)).len()
                >= MAX_IP_CHARS,
        decreases n - i,
    {
        let c: char = input.get_char(i);
        let v: u32 = c as u32;
        let ghost before = input@.subrange(0, i as int);
        let ghost next = input@.subrange(0, i + 1);
        proof {
            assert(next.drop_last() =~= before);
            assert(next.last() == c);
        }
        if ((48 <= v && v <= 57) || v == 46) && kept < MAX_IP_CHARS {
            let ghost old_text = text@;
            text.append(input.substring_char(i, i + 1));
            proof {
                assert(input@.subrange(i as int, i + 1) =~= seq![c]);
                assert(text@ =~= old_text.push(c));
                assert(text@ =~= spec_take(spec_ip_chars(next), MAX_IP_CHARS as nat));
            }
            kept += 1;
        } else {
            proof {
                assert(text@ =~= spec_take(spec_ip_chars(next), MAX_IP_CHARS as nat));
            }
        }
        i += 1;
    }
    assert(input@.subrange(0, n as int) =~= input@);
    text
}

/// What the port field holds after `input` was typed: its first five
/// characters.
pub fn limit_port_input(input: &str) -> (text: String)
    ensures
        text@ == spec_take(input@, MAX_PORT_CHARS as nat),
{
    if input.unicode_len() > MAX_PORT_CHARS {
        String::from_str(input.substring_char(0, MAX_PORT_CHARS))
    } else {
        String::from_str(input)
    }
}

/// Why a connect request was not made.
#[derive(Clone, Copy, Debug, PartialEq, Eq, Structural)]
pub enum FormError {
    /// Address or port is blank.
    MissingFields,
    /// The address is not a dotted IPv4 address.
    InvalidIp,
    /// The port is not a number from 1 to 65535.
    InvalidPort,
}

impl FormError {
    /// The key of the message shown for the error.
    pub open spec fn spec_key(self) -> Seq<char> {
        match self {
            FormError::MissingFields => "error.client.missing_fields"@,
            FormError::InvalidIp => "error.client.invalid_ip"@,
            FormError::InvalidPort => "error.client.invalid_port"@,
        }
    }

    /// Returns the key of the message shown for the error.
    pub fn key(self) -> (key: &'static str)
        ensures
            key@ == self.spec_key(),
    {
        match self {
            FormError::MissingFields => "error.client.missing_fields",
            FormError::InvalidIp => "error.client.invalid_ip",
            FormError::InvalidPort => "error.client.invalid_port",
        }
    }
}

/// What the connect form comes to: the port, or why there is no request.
/// Address and port are read without the whitespace at their ends; both
/// must be there, the address must be dotted IPv4 and the port a number
/// from 1 to 65535.
pub open spec fn spec_validate(ip: Seq<char>, port: Seq<char>) -> Result<u16, FormError> {
    let ip_text = spec_trimmed(ip);
    let port_text = spec_trimmed(port);
    if ip_text.len() == 0 || port_text.len() == 0 {
        Err(FormError::MissingFields)
    } else if spec_parse_ipv4(encode_utf8(ip_text)) is None {
        Err(FormError::InvalidIp)
    } else {
        match spec_parse_uint(encode_utf8(port_text), 0xffff) {
            Some(p) => if p > 0 {
                Ok(p as u16)
            } else {
                Err(FormError::InvalidPort)
            },
            None => Err(FormError::InvalidPort),
        }
    }
}

/// The key text to use: none when the field is blank, else the field as
/// typed.
pub open spec fn spec_client_psk(field: Seq<char>) -> Option<Seq<char>> {
    if spec_trimmed(field).len() == 0 {
        None
    } else {
        Some(field)
    }
}

/// The key text the server is started with: none when the field is blank,
/// else the field without the whitespace at its ends.
pub open spec fn spec_server_psk(field: Seq<char>) -> Option<Seq<char>> {
    if spec_trimmed(field).len() == 0 {
        None
    } else {
        Some(spec_trimmed(field))
    }
}

/// A well-formed request to connect.
pub struct ConnectRequest {
    pub ip: String,
    pub port: u16,
    pub output_index: usize,
    pub psk: Option<String>,
}

/// A request to start the server.
pub struct StartRequest {
    pub ip: String,
    pub port: u16,
    pub input_index: usize,
    pub psk: Option<String>,
}

/// The key by which the server's stage is shown.
pub open spec fn spec_status_key(stage: u8) -> Seq<char> {
    if stage == 0 {
        "server.status.stopped"@
    } else if stage == 1 {
        "server.status.listening"@
    } else if stage == 2 {
        "server.status.audio_ready"@
    } else {
        "server.status.running"@
    }
}

/// Returns the key by which the server's stage is shown.
pub fn status_key(stage: u8) -> (key: &'static str)
    ensures
        key@ == spec_status_key(stage),
{
    if stage == 0 {
        "server.status.stopped"
    } else if stage == 1 {
        "server.status.listening"
    } else if stage == 2 {
        "server.status.audio_ready"
    } else {
        "server.status.running"
    }
}

/// The short name of a sample format; formats without a code read `f32`.
pub fn format_name(format: SampleFormat) -> (name: &'static str)
    ensures
        name@ == match format {
            SampleFormat::I16 => "i16"@,
            SampleFormat::U16 => "u16"@,
            _ => "f32"@,
        },
{
    match format {
        SampleFormat::I16 => "i16",
        SampleFormat::U16 => "u16",
        _ => "f32",
    }
}

/// The client's encryption badge: the key of its label and its colour.
/// A failed status is red, an active one green; otherwise the badge reads
/// disabled, in red when this machine's own server has a key, else grey.
pub fn encryption_badge(status: i32, server_key_set: bool) -> (badge: (&'static str, &'static str))
    ensures
        badge.0@ == if status == -1 {
            "enc.auth_failed"@
        } else if status == 1 {
            "enc.enabled"@
        } else {
            "enc.disabled"@
        },
        badge.1@ == if status == -1 {
            "#b60205"@
        } else if status == 1 {
            "#216e39"@
        } else if server_key_set {
            "#b60205"@
        } else {
            "#555"@
        },
{
    if status == -1 {
        ("enc.auth_failed", "#b60205")
    } else if status == 1 {
        ("enc.enabled", "#216e39")
    } else if server_key_set {
        ("enc.disabled", "#b60205")
    } else {
        ("enc.disabled", "#555")
    }
}

/// The bytes of a string.
pub open spec fn spec_text_bytes(s: String) -> Seq<u8> {
    encode_utf8(s@)
}

/// Whether `a` comes before `b` in the order of strings: byte by byte, a
/// proper prefix first.
pub open spec fn spec_less(a: Seq<u8>, b: Seq<u8>) -> bool
    decreases a.len(),
{
    if b.len() == 0 {
        false
    } else if a.len() == 0 {
        true
    } else if a[0] != b[0] {
        a[0] < b[0]
    } else {
        spec_less(a.drop_first(), b.drop_first())
    }
}

/// The number of leading entries of `list`, from `from` on, that come
/// before `x`, added to `from`.
pub open spec fn spec_rank(list: Seq<String>, x: Seq<u8>, from: int) -> int
    decreases list.len() - from,
{
    if from < 0 || from >= list.len() {
        list.len() as int
    } else if !spec_less(spec_text_bytes(list[from]), x) {
        from
    } else {
        spec_rank(list, x, from + 1)
    }
}

/// `list` with `x` put behind the leading entries that come before it,
/// unless the entry found there is `x` already.
pub open spec fn spec_place(list: Seq<String>, x: String) -> Seq<String> {
    let p = spec_rank(list, spec_text_bytes(x), 0);
    if 0 <= p < list.len() && spec_text_bytes(list[p]) == spec_text_bytes(x) {
        list
    } else if 0 <= p <= list.len() {
        list.insert(p, x)
    } else {
        list
    }
}

/// The entries of `input` in increasing order, each once.
pub open spec fn spec_sorted_unique(input: Seq<String>) -> Seq<String>
    decreases input.len(),
{
    if input.len() == 0 {
        Seq::empty()
    } else {
        spec_place(spec_sorted_unique(input.drop_last()), input.last())
    }
}

/// Whether the entries of `list` strictly increase.
pub open spec fn spec_increasing(list: Seq<String>) -> bool {
    forall|i: int, j: int|
        0 <= i < j < list.len() ==> spec_less(spec_text_bytes(list[i]), spec_text_bytes(list[j]))
}

/// Whether `list` has an entry that reads `x`.
pub open spec fn spec_lists(list: Seq<String>, x: Seq<u8>) -> bool {
    exists|i: int| 0 <= i < list.len() && #[trigger] spec_text_bytes(list[i]) == x
}

/// Tells whether `a` comes before `b` in the order of strings.
pub fn bytes_less(a: &[u8], b: &[u8]) -> (less: bool)
    ensures
        less == spec_less(a@, b@),
{
    let n: usize = a.len();
    let m: usize = b.len();
    let mut i: usize = 0;
    assert(a@.subrange(0, n as int) =~= a@);
    assert(b@.subrange(0, m as int) =~= b@);
    while i < n && i < m
        invariant
            n == a@.len(),
            m == b@.len(),
            i <= n,
            i <= m,
            spec_less(a@, b@) == spec_less(
                a@.subrange(i as int, n as int),
                b@.subrange(i as int, m as int),
            ),
        decreases n - i,
    {
        let ghost ra = a@.subrange(i as int, n as int);
        let ghost rb = b@.subrange(i as int, m as int);
        assert(ra[0] == a@[i as int]);
        assert(rb[0] == b@[i as int]);
        if a[i] != b[i] {
            return a[i] < b[i];
        }
        assert(ra.drop_first() =~= a@.subrange(i + 1, n as int));
        assert(rb.drop_first() =~= b@.subrange(i + 1, m as int));
        i += 1;
    }
    i < m
}

/// Puts `x` into an increasing list, unless it is there already.
pub fn place(list: &mut Vec<String>, x: String)
    ensures
        final(list)@ == spec_place(old(list)@, x),
{
    let n: usize = list.len();
    let mut p: usize = 0;
    while p < n && bytes_less(list[p].as_str().as_bytes(), x.as_str().as_bytes())
        invariant
            n == list@.len(),
            p <= n,
            list@ == old(list)@,
            spec_rank(list@, spec_text_bytes(x), 0) == spec_rank(list@, spec_text_bytes(x), p as int),
        decreases n - p,
    {
        p += 1;
    }
    if p < n && !bytes_less(x.as_str().as_bytes(), list[p].as_str().as_bytes()) {
        proof {
            lemma_less_or_equal(spec_text_bytes(x), spec_text_bytes(list@[p as int]));
        }
        return;
    }
    proof {
        if p < n {
            lemma_less_not_equal(spec_text_bytes(x), spec_text_bytes(list@[p as int]));
        }
    }
    list.insert(p, x);
}

/// Sorts a list of strings and drops what occurs twice.
pub fn sorted_unique(input: Vec<String>) -> (list: Vec<String>)
    ensures
        list@ == spec_sorted_unique(input@),
{
    let mut list: Vec<String> = Vec::new();
    let mut i: usize = 0;
    assert(input@.subrange(0, 0) =~= Seq::<String>::empty());
    while i < input.len()
        invariant
            i <= input@.len(),
            list@ == spec_sorted_unique(input@.subrange(0, i as int)),
        decreases input@.len() - i,
    {
        let ghost next = input@.subrange(0, i + 1);
        assert(next.drop_last() =~= input@.subrange(0, i as int));
        assert(next.last() == input@[i as int]);
        place(&mut list, input[i].clone());
        i += 1;
    }
    assert(input@.subrange(0, i as int) =~= input@);
    list
}

/// Of two strings neither of which comes before the other, both read the
/// same.
pub proof fn lemma_less_or_equal(a: Seq<u8>, b: Seq<u8>)
    requires
        !spec_less(a, b),
        !spec_less(b, a),
    ensures
        a == b,
    decreases a.len(),
{
    if a.len() == 0 || b.len() == 0 {
        assert(a =~= b);
    } else {
        lemma_less_or_equal(a.drop_first(), b.drop_first());
        assert(a =~= seq![a[0]] + a.drop_first());
        assert(b =~= seq![b[0]] + b.drop_first());
    }
}

/// A string does not come before itself.
pub proof fn lemma_less_not_equal(a: Seq<u8>, b: Seq<u8>)
    requires
        spec_less(a, b),
    ensures
        a != b,
        !spec_less(b, a),
    decreases a.len(),
{
    if b.len() == 0 || a.len() == 0 {
    } else if a[0] != b[0] {
    } else {
        lemma_less_not_equal(a.drop_first(), b.drop_first());
        if a == b {
            assert(a.drop_first() == b.drop_first());
        }
    }
}

/// The order of strings is transitive.
pub proof fn lemma_less_transitive(a: Seq<u8>, b: Seq<u8>, c: Seq<u8>)
    requires
        spec_less(a, b),
        spec_less(b, c),
    ensures
        spec_less(a, c),
    decreases a.len(),
{
    if a.len() == 0 {
    } else if a[0] != b[0] || b[0] != c[0] {
    } else {
        lemma_less_transitive(a.drop_first(), b.drop_first(), c.drop_first());
    }
}

/// Every entry before the rank of `x` comes before `x`, and the entry at
/// the rank, if there is one, does not.
pub proof fn lemma_rank(list: Seq<String>, x: Seq<u8>, from: int)
    requires
        0 <= from <= list.len(),
    ensures
        from <= spec_rank(list, x, from) <= list.len(),
        forall|i: int|
            from <= i < spec_rank(list, x, from) ==> spec_less(
                #[trigger] spec_text_bytes(list[i]),
                x,
            ),
        spec_rank(list, x, from) < list.len() ==> !spec_less(
            spec_text_bytes(list[spec_rank(list, x, from)]),
            x,
        ),
    decreases list.len() - from,
{
    if from < list.len() && spec_less(spec_text_bytes(list[from]), x) {
        lemma_rank(list, x, from + 1);
    }
}

/// Placing a string into an increasing list gives an increasing list that
/// holds what was there and the string.
pub proof fn lemma_place(list: Seq<String>, x: String, y: Seq<u8>)
    requires
        spec_increasing(list),
    ensures
        spec_increasing(spec_place(list, x)),
        spec_lists(spec_place(list, x), y) <==> (spec_lists(list, y) || y == spec_text_bytes(x)),
{
    let xb = spec_text_bytes(x);
    let p = spec_rank(list, xb, 0);
    lemma_rank(list, xb, 0);
    let placed = spec_place(list, x);
    if p < list.len() && spec_text_bytes(list[p]) == xb {
        if y == xb {
            assert(spec_text_bytes(list[p]) == y);
        }
    } else {
        assert(placed == list.insert(p, x));
        assert forall|i: int, j: int| 0 <= i < j < placed.len() implies spec_less(
            spec_text_bytes(placed[i]),
            spec_text_bytes(placed[j]),
        ) by {
            if j == p {
                assert(placed[i] == list[i]);
            } else if i == p {
                assert(placed[j] == list[j - 1]);
                lemma_less_or_equal_or_after(spec_text_bytes(list[p]), xb);
                if j - 1 > p {
                    lemma_less_transitive(xb, spec_text_bytes(list[p]), spec_text_bytes(list[j - 1]));
                }
            } else {
                let a = if i < p {
                    i
                } else {
                    i - 1
                };
                let b = if j < p {
                    j
                } else {
                    j - 1
                };
                assert(placed[i] == list[a]);
                assert(placed[j] == list[b]);
            }
        }
        if spec_lists(placed, y) {
            let k = choose|k: int| 0 <= k < placed.len() && #[trigger] spec_text_bytes(placed[k]) == y;
            if k < p {
                assert(spec_text_bytes(list[k]) == y);
            } else if k > p {
                assert(spec_text_bytes(list[k - 1]) == y);
            }
        }
        if spec_lists(list, y) {
            let k = choose|k: int| 0 <= k < list.len() && #[trigger] spec_text_bytes(list[k]) == y;
            if k < p {
                assert(spec_text_bytes(placed[k]) == y);
            } else {
                assert(spec_text_bytes(placed[k + 1]) == y);
            }
        }
        if y == xb {
            assert(spec_text_bytes(placed[p]) == y);
        }
    }
}

/// A string that does not come before another and does not read the same
/// comes after it.
pub proof fn lemma_less_or_equal_or_after(a: Seq<u8>, b: Seq<u8>)
    requires
        !spec_less(a, b),
        a != b,
    ensures
        spec_less(b, a),
{
    if !spec_less(b, a) {
        lemma_less_or_equal(a, b);
    }
}

/// Sorting gives a strictly increasing list of exactly the strings that
/// were put in.
pub proof fn lemma_sorted_unique(input: Seq<String>, y: Seq<u8>)
    ensures
        spec_increasing(spec_sorted_unique(input)),
        spec_lists(spec_sorted_unique(input), y) <==> spec_lists(input, y),
    decreases input.len(),
{
    if input.len() > 0 {
        let head = input.drop_last();
        lemma_sorted_unique(head, y);
        lemma_place(spec_sorted_unique(head), input.last(), y);
        if spec_lists(head, y) {
            let k = choose|k: int| 0 <= k < head.len() && #[trigger] spec_text_bytes(head[k]) == y;
            assert(spec_text_bytes(input[k]) == y);
        }
        if spec_lists(input, y) {
            let k = choose|k: int| 0 <= k < input.len() && #[trigger] spec_text_bytes(input[k]) == y;
            if k < head.len() {
                assert(spec_text_bytes(head[k]) == y);
            }
        }
        if y == spec_text_bytes(input.last()) {
            assert(spec_text_bytes(input[input.len() - 1]) == y);
        }
    }
}

/// The position of the first address in `list`, at or after `from`, that
/// is neither `0.0.0.0` nor `127.0.0.1`; the length of `list` when there is
/// none.
pub open spec fn spec_first_routable(list: Seq<String>, from: int) -> int
    decreases list.len() - from,
{
    if from < 0 || from >= list.len() {
        list.len() as int
    } else if list[from]@ != ANY_ADDRESS@ && list[from]@ != LOOPBACK_ADDRESS@ {
        from
    } else {
        spec_first_routable(list, from + 1)
    }
}

/// The preselected address: the first that is neither `0.0.0.0` nor
/// `127.0.0.1`, or the first of all when there is none.
pub open spec fn spec_default_ip_index(list: Seq<String>) -> int {
    if spec_first_routable(list, 0) < list.len() {
        spec_first_routable(list, 0)
    } else {
        0
    }
}

/// Whether `list` holds the address `0.0.0.0`.
pub open spec fn spec_has_any(list: Seq<String>) -> bool {
    exists|i: int| 0 <= i < list.len() && (#[trigger] list[i])@ == ANY_ADDRESS@
}

/// Finds the preselected address.
pub fn default_ip_index(list: &Vec<String>) -> (index: usize)
    ensures
        index == spec_default_ip_index(list@),
        list@.len() > 0 ==> index < list@.len(),
{
    let any = String::from_str(ANY_ADDRESS);
    let loopback = String::from_str(LOOPBACK_ADDRESS);
    let mut i: usize = 0;
    while i < list.len()
        invariant
            i <= list@.len(),
            any@ == ANY_ADDRESS@,
            loopback@ == LOOPBACK_ADDRESS@,
            spec_first_routable(list@, 0) == spec_first_routable(list@, i as int),
        decreases list@.len() - i,
    {
        if list[i] != any && list[i] != loopback {
            return i;
        }
        i += 1;
    }
    0
}

/// The entries of `list` that are not `0.0.0.0`, in their order.
pub open spec fn spec_without_any(list: Seq<String>) -> Seq<String>
    decreases list.len(),
{
    if list.len() == 0 {
        Seq::empty()
    } else if list.last()@ == ANY_ADDRESS@ {
        spec_without_any(list.drop_last())
    } else {
        spec_without_any(list.drop_last()).push(list.last())
    }
}

/// Whether `list` is what is offered for the server when `found` are the
/// addresses of the machine: `0.0.0.0` first, then those of `found` that
/// are not `0.0.0.0`.
pub open spec fn spec_offers(list: Seq<String>, found: Seq<String>) -> bool {
    &&& list.len() == spec_without_any(found).len() + 1
    &&& list[0]@ == ANY_ADDRESS@
    &&& list.subrange(1, list.len() as int) == spec_without_any(found)
}

/// The addresses offered for the server: `0.0.0.0` first in every case,
/// then the others that were found.
pub fn with_any_address(found: Vec<String>) -> (list: Vec<String>)
    ensures
        spec_offers(list@, found@),
{
    let any = String::from_str(ANY_ADDRESS);
    let mut list: Vec<String> = Vec::new();
    list.push(String::from_str(ANY_ADDRESS));
    let mut i: usize = 0;
    assert(found@.subrange(0, 0) =~= Seq::<String>::empty());
    assert(list@.subrange(1, 1) =~= Seq::<String>::empty());
    while i < found.len()
        invariant
            i <= found@.len(),
            any@ == ANY_ADDRESS@,
            spec_offers(list@, found@.subrange(0, i as int)),
        decreases found@.len() - i,
    {
        let ghost before = list@;
        let ghost next = found@.subrange(0, i + 1);
        assert(next.drop_last() =~= found@.subrange(0, i as int));
        assert(next.last() == found@[i as int]);
        if found[i] != any {
            list.push(found[i].clone());
            assert(list@.subrange(1, list@.len() as int) =~= before.subrange(
                1,
                before.len() as int,
            ).push(found@[i as int]));
        }
        i += 1;
    }
    assert(found@.subrange(0, i as int) =~= found@);
    list
}

/// A list without `0.0.0.0` is offered whole behind it.
pub proof fn lemma_without_any_keeps(list: Seq<String>)
    requires
        !spec_has_any(list),
    ensures
        spec_without_any(list) == list,
    decreases list.len(),
{
    if list.len() > 0 {
        let rest = list.drop_last();
        assert(list.last() == list[list.len() - 1]);
        assert forall|i: int| 0 <= i < rest.len() implies (#[trigger] rest[i])@ != ANY_ADDRESS@ by {
            assert(rest[i] == list[i]);
        }
        lemma_without_any_keeps(rest);
        assert(rest.push(list.last()) =~= list);
    } else {
        assert(list =~= Seq::<String>::empty());
    }
}

/// The state behind the control panel.
pub struct AppModel {
    pub current_lang: String,
    pub input_devices: Vec<String>,
    pub output_devices: Vec<String>,
    pub sel_input: usize,
    pub sel_output: usize,
    pub server_ip_list: Vec<String>,
    pub sel_server_ip: usize,
    pub server_port: u16,
    pub server_running: bool,
    pub client_connected: bool,
    pub client_server_ip: String,
    pub client_server_port: String,
    pub error_message: Option<String>,
    pub mic_test_done: bool,
    pub mic_available: bool,
    pub net_test_done: bool,
    pub net_available: bool,
    pub server_psk: String,
    pub client_psk: String,
}

/// The banner after a capability test. A microphone that has come back
/// takes a microphone banner away; a microphone that is missing puts one
/// up unless another message is showing.
pub open spec fn spec_banner_after_test(
    banner: Option<Seq<char>>,
    mic_was_available: bool,
    mic_ok: bool,
) -> Option<Seq<char>> {
    let kept = if !mic_was_available && mic_ok && banner is Some && spec_contains(
        encode_utf8(banner->0),
        MIC_WORD@,
    ) {
        None
    } else {
        banner
    };
    if !mic_ok && kept is None {
        Some(MIC_UNAVAILABLE@)
    } else {
        kept
    }
}

/// Whether two states agree on devices, selections, the server's address,
/// port and running flag, and both key fields.
pub open spec fn spec_same_setup(a: AppModel, b: AppModel) -> bool {
    &&& a.input_devices == b.input_devices
    &&& a.output_devices == b.output_devices
    &&& a.sel_input == b.sel_input
    &&& a.sel_output == b.sel_output
    &&& a.server_ip_list == b.server_ip_list
    &&& a.sel_server_ip == b.sel_server_ip
    &&& a.server_port == b.server_port
    &&& a.server_running == b.server_running
    &&& a.server_psk == b.server_psk
    &&& a.client_psk == b.client_psk
}

/// Whether two states agree on the outcome of the capability tests.
pub open spec fn spec_same_tests(a: AppModel, b: AppModel) -> bool {
    &&& a.mic_test_done == b.mic_test_done
    &&& a.mic_available == b.mic_available
    &&& a.net_test_done == b.net_test_done
    &&& a.net_available == b.net_available
}

/// The text of an optional string.
pub open spec fn spec_text(s: Option<String>) -> Option<Seq<char>> {
    match s {
        Some(t) => Some(t@),
        None => None,
    }
}

impl AppModel {
    /// The panel's state at startup: the devices found, the addresses found
    /// in increasing order behind `0.0.0.0`, the first routable address
    /// preselected, the free port found or 50000, nothing running, no
    /// message.
    pub fn new(
        input_devices: Vec<String>,
        output_devices: Vec<String>,
        addresses: Vec<String>,
        free_port: Option<u16>,
    ) -> (model: AppModel)
        ensures
            model.current_lang@ == DEFAULT_LANG@,
            model.input_devices == input_devices,
            model.output_devices == output_devices,
            model.sel_input == 0,
            model.sel_output == 0,
            spec_offers(model.server_ip_list@, spec_sorted_unique(addresses@)),
            model.sel_server_ip == spec_default_ip_index(model.server_ip_list@),
            model.server_port == match free_port {
                Some(p) => p,
                None => FALLBACK_PORT,
            },
            !model.server_running,
            !model.client_connected,
            model.client_server_ip@.len() == 0,
            model.client_server_port@.len() == 0,
            model.error_message is None,
            !model.mic_test_done && !model.mic_available,
            !model.net_test_done && !model.net_available,
            model.server_psk@.len() == 0,
            model.client_psk@.len() == 0,
    {
        let server_ip_list = with_any_address(sorted_unique(addresses));
        let sel_server_ip = default_ip_index(&server_ip_list);
        AppModel {
            current_lang: String::from_str(DEFAULT_LANG),
            input_devices,
            output_devices,
            sel_input: 0,
            sel_output: 0,
            server_ip_list,
            sel_server_ip,
            server_port: match free_port {
                Some(p) => p,
                None => FALLBACK_PORT,
            },
            server_running: false,
            client_connected: false,
            client_server_ip: String::new(),
            client_server_port: String::new(),
            error_message: None,
            mic_test_done: false,
            mic_available: false,
            net_test_done: false,
            net_available: false,
            server_psk: String::new(),
            client_psk: String::new(),
        }
    }

    /// Takes in the outcome of a capability test.
    pub fn apply_capability_test(&mut self, mic_ok: bool, net_ok: bool)
        ensures
            final(self).mic_test_done && final(self).net_test_done,
            final(self).mic_available == mic_ok,
            final(self).net_available == net_ok,
            spec_text(final(self).error_message) == spec_banner_after_test(
                spec_text(old(self).error_message),
                old(self).mic_available,
                mic_ok,
            ),
            spec_same_setup(*final(self), *old(self)),
            final(self).current_lang == old(self).current_lang,
            final(self).client_connected == old(self).client_connected,
            final(self).client_server_ip == old(self).client_server_ip,
            final(self).client_server_port == old(self).client_server_port,
    {
        self.mic_test_done = true;
        let about_mic: bool = match &self.error_message {
            Some(m) => contains(m.as_str().as_bytes(), MIC_WORD.as_slice()),
            None => false,
        };
        if !self.mic_available && mic_ok && about_mic {
            self.error_message = None;
        }
        self.mic_available = mic_ok;
        self.net_test_done = true;
        self.net_available = net_ok;
        if !mic_ok && self.error_message.is_none() {
            self.error_message = Some(String::from_str(MIC_UNAVAILABLE));
        }
    }

    /// Takes in the end of the client session: the client state is dropped
    /// and, unless a message is showing, the reason is shown behind
    /// `prefix`.
    pub fn client_disconnected(&mut self, reason: DisconnectReason, prefix: &str)
        ensures
            !final(self).client_connected,
            spec_text(final(self).error_message) == match spec_text(old(self).error_message) {
                Some(m) => Some(m),
                None => Some(prefix@ + reason.spec_message()),
            },
            spec_same_setup(*final(self), *old(self)),
            spec_same_tests(*final(self), *old(self)),
            final(self).current_lang == old(self).current_lang,
            final(self).client_server_ip == old(self).client_server_ip,
            final(self).client_server_port == old(self).client_server_port,
    {
        if self.error_message.is_none() {
            let text = String::from_str(prefix).concat(reason.message().as_str());
            self.error_message = Some(text);
        }
        self.client_connected = false;
    }

    /// Takes away the message that is showing.
    pub fn dismiss_error(&mut self)
        ensures
            final(self).error_message is None,
            spec_same_setup(*final(self), *old(self)),
            spec_same_tests(*final(self), *old(self)),
            final(self).current_lang == old(self).current_lang,
            final(self).client_connected == old(self).client_connected,
            final(self).client_server_ip == old(self).client_server_ip,
            final(self).client_server_port == old(self).client_server_port,
    {
        self.error_message = None;
    }

    /// Sets the server address field from what was typed.
    pub fn set_client_ip(&mut self, input: &str)
        ensures
            final(self).client_server_ip@ == spec_take(spec_ip_chars(input@), MAX_IP_CHARS as nat),
            spec_same_setup(*final(self), *old(self)),
            spec_same_tests(*final(self), *old(self)),
            final(self).current_lang == old(self).current_lang,
            final(self).client_connected == old(self).client_connected,
            final(self).client_server_port == old(self).client_server_port,
            final(self).error_message == old(self).error_message,
    {
        self.client_server_ip = filter_ip_input(input);
    }

    /// Sets the server port field from what was typed.
    pub fn set_client_port(&mut self, input: &str)
        ensures
            final(self).client_server_port@ == spec_take(input@, MAX_PORT_CHARS as nat),
            spec_same_setup(*final(self), *old(self)),
            spec_same_tests(*final(self), *old(self)),
            final(self).current_lang == old(self).current_lang,
            final(self).client_connected == old(self).client_connected,
            final(self).client_server_ip == old(self).client_server_ip,
            final(self).error_message == old(self).error_message,
    {
        self.client_server_port = limit_port_input(input);
    }

    /// Switches to the language `code`. Returns whether that is a change;
    /// only then is there anything to reload.
    pub fn switch_language(&mut self, code: &str) -> (changed: bool)
        ensures
            changed == (old(self).current_lang@ != code@),
            final(self).current_lang@ == code@,
            spec_same_setup(*final(self), *old(self)),
            spec_same_tests(*final(self), *old(self)),
            final(self).client_connected == old(self).client_connected,
            final(self).client_server_ip == old(self).client_server_ip,
            final(self).client_server_port == old(self).client_server_port,
            final(self).error_message == old(self).error_message,
    {
        let wanted = String::from_str(code);
        if self.current_lang != wanted {
            self.current_lang = wanted;
            true
        } else {
            false
        }
    }

    /// Checks the connect form and makes the request. A form that does not
    /// pass puts the error's key in the result and changes nothing.
    pub fn connect_request(&self) -> (request: Result<ConnectRequest, FormError>)
        ensures
            match request {
                Ok(r) => spec_validate(self.client_server_ip@, self.client_server_port@) == Ok::<
                    u16,
                    FormError,
                >(r.port) && r.ip@ == spec_trimmed(self.client_server_ip@) && r.output_index
                    == self.sel_output && spec_text(r.psk) == spec_client_psk(self.client_psk@),
                Err(e) => spec_validate(self.client_server_ip@, self.client_server_port@) == Err::<
                    u16,
                    FormError,
                >(e),
            },
    {
        let ip_text = trimmed(self.client_server_ip.as_str());
        let port_text = trimmed(self.client_server_port.as_str());
        if ip_text.unicode_len() == 0 || port_text.unicode_len() == 0 {
            return Err(FormError::MissingFields);
        }
        if parse_ipv4(ip_text.as_bytes()).is_none() {
            return Err(FormError::InvalidIp);
        }
        let port: u16 = match parse_uint(port_text.as_bytes(), 0xffff) {
            Some(p) => {
                if p == 0 {
                    return Err(FormError::InvalidPort);
                }
                p as u16
            },
            None => {
                return Err(FormError::InvalidPort);
            },
        };
        let psk: Option<String> = if is_blank(self.client_psk.as_str()) {
            None
        } else {
            Some(self.client_psk.clone())
        };
        Ok(
            ConnectRequest {
                ip: String::from_str(ip_text),
                port,
                output_index: self.sel_output,
                psk,
            },
        )
    }

    /// Makes the request to start the server: the selected address, or
    /// `0.0.0.0` when the selection is out of range, the port, the selected
    /// input device and the key text, if any.
    pub fn start_request(&self) -> (request: StartRequest)
        ensures
            request.ip@ == if self.sel_server_ip < self.server_ip_list@.len() {
                self.server_ip_list@[self.sel_server_ip as int]@
            } else {
                ANY_ADDRESS@
            },
            request.port == self.server_port,
            request.input_index == self.sel_input,
            spec_text(request.psk) == spec_server_psk(self.server_psk@),
    {
        let ip = if self.sel_server_ip < self.server_ip_list.len() {
            self.server_ip_list[self.sel_server_ip].clone()
        } else {
            String::from_str(ANY_ADDRESS)
        };
        let key_text = trimmed(self.server_psk.as_str());
        let psk: Option<String> = if key_text.unicode_len() == 0 {
            None
        } else {
            Some(String::from_str(key_text))
        };
        StartRequest { ip, port: self.server_port, input_index: self.sel_input, psk }
    }
}

/// Whatever is typed, the address field ends up with digits and dots only,
/// fifteen at most.
pub proof fn lemma_ip_field_is_clean(input: Seq<char>)
    ensures
        spec_take(spec_ip_chars(input), MAX_IP_CHARS as nat).len() <= MAX_IP_CHARS,
        forall|i: int|
            0 <= i < spec_take(spec_ip_chars(input), MAX_IP_CHARS as nat).len() ==> spec_ip_char(
                #[trigger] spec_take(spec_ip_chars(input), MAX_IP_CHARS as nat)[i],
            ),
{
    lemma_ip_chars_clean(input);
}

/// Every character that the address filter lets through is a digit or a
/// dot.
pub proof fn lemma_ip_chars_clean(input: Seq<char>)
    ensures
        forall|i: int|
            0 <= i < spec_ip_chars(input).len() ==> spec_ip_char(#[trigger] spec_ip_chars(input)[i]),
    decreases input.len(),
{
    if input.len() > 0 {
        let head = spec_ip_chars(input.drop_last());
        lemma_ip_chars_clean(input.drop_last());
        assert forall|i: int| 0 <= i < spec_ip_chars(input).len() implies spec_ip_char(
            #[trigger] spec_ip_chars(input)[i],
        ) by {
            if i < head.len() {
                assert(spec_ip_chars(input)[i] == head[i]);
            }
        }
    }
}

} // verus!
