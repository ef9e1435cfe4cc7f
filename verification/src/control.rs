//! The server's side of the control connection: the commands a client
//! sends, one per line, and what each does to the registry.

use crate::registry::{spec_heartbeat, spec_heartbeat_ok, ClientRegistry, ClientView};
use crate::client::spec_heartbeat_line;
use crate::text::{
    bytes_eq, find_byte, is_space, lemma_find, lemma_tokens_line, push_bytes, spec_find,
    spec_is_space, spec_is_word, spec_join, spec_starts_with, spec_tokens, spec_views,
    split_tokens, starts_with,
};
use crate::words::{NEWLINE, SPACE, WORD_BYE, WORD_DISCONNECT, WORD_HEART, WORD_OK, WORD_SERVER_STOP};
use vstd::prelude::*;
use vstd::slice::slice_subrange;

verus! {

/// A line from a client.
pub enum Command {
    /// `HEART <key>`: the client is alive.
    Heart(Vec<u8>),
    /// `DISCONNECT`: the client leaves.
    Disconnect,
    /// Anything else, blank lines included.
    Ignored,
}

/// A line from a client as plain values.
pub enum CommandView {
    Heart(Seq<u8>),
    Disconnect,
    Ignored,
}

impl View for Command {
    type V = CommandView;

    open spec fn view(&self) -> CommandView {
        match self {
            Command::Heart(key) => CommandView::Heart(key@),
            Command::Disconnect => CommandView::Disconnect,
            Command::Ignored => CommandView::Ignored,
        }
    }
}

/// The position of the first byte of `s`, at or after `from`, that is not
/// whitespace; the length of `s` when there is none.
pub open spec fn spec_trim_start(s: Seq<u8>, from: int) -> int
    decreases s.len() - from,
{
    if from < 0 || from >= s.len() {
        s.len() as int
    } else if !spec_is_space(s[from]) {
        from
    } else {
        spec_trim_start(s, from + 1)
    }
}

/// The position behind the last byte of `s`, before `to`, that is not
/// whitespace; zero when there is none.
pub open spec fn spec_trim_end(s: Seq<u8>, to: int) -> int
    decreases to,
{
    if to <= 0 || to > s.len() {
        0
    } else if !spec_is_space(s[to - 1]) {
        to
    } else {
        spec_trim_end(s, to - 1)
    }
}

/// `s` without the whitespace at its ends.
pub open spec fn spec_trim(s: Seq<u8>) -> Seq<u8> {
    let start = spec_trim_start(s, 0);
    let end = spec_trim_end(s, s.len() as int);
    if start < end {
        s.subrange(start, end)
    } else {
        Seq::empty()
    }
}

/// The command on a line. Whitespace at the ends does not count. A line
/// that starts with `HEART` and a space and has two words is a heartbeat
/// with the second word as key; the line `DISCONNECT` is a disconnect.
pub open spec fn spec_command(line: Seq<u8>) -> CommandView {
    let text = spec_trim(line);
    if spec_starts_with(text, WORD_HEART@ + seq![SPACE]) {
        if spec_tokens(text).len() == 2 {
            CommandView::Heart(spec_tokens(text)[1])
        } else {
            CommandView::Ignored
        }
    } else if text == WORD_DISCONNECT@ {
        CommandView::Disconnect
    } else {
        CommandView::Ignored
    }
}

/// Cuts the whitespace off the ends of `s`.
pub fn trim(s: &[u8]) -> (text: &[u8])
    ensures
        text@ == spec_trim(s@),
{
    let n: usize = s.len();
    let mut start: usize = 0;
    while start < n && is_space(s[start])
        invariant
            n == s@.len(),
            start <= n,
            spec_trim_start(s@, 0) == spec_trim_start(s@, start as int),
        decreases n - start,
    {
        start += 1;
    }
    let mut end: usize = n;
    while end > 0 && is_space(s[end - 1])
        invariant
            n == s@.len(),
            end <= n,
            spec_trim_end(s@, n as int) == spec_trim_end(s@, end as int),
        decreases end,
    {
        end -= 1;
    }
    if start < end {
        slice_subrange(s, start, end)
    } else {
        let text = slice_subrange(s, 0, 0);
        assert(text@ =~= Seq::<u8>::empty());
        text
    }
}

/// Reads the command on a line.
pub fn parse_command(line: &[u8]) -> (command: Command)
    ensures
        command@ == spec_command(line@),
{
    let text = trim(line);
    let mut heart: Vec<u8> = Vec::new();
    push_bytes(&mut heart, WORD_HEART.as_slice());
    heart.push(SPACE);
    assert(heart@ =~= WORD_HEART@ + seq![SPACE]);
    if starts_with(text, heart.as_slice()) {
        let tokens = split_tokens(text);
        if tokens.len() == 2 {
            assert(spec_views(tokens@)[1] == tokens@[1]@);
            Command::Heart(tokens[1].clone())
        } else {
            Command::Ignored
        }
    } else if bytes_eq(text, WORD_DISCONNECT.as_slice()) {
        Command::Disconnect
    } else {
        Command::Ignored
    }
}

/// What a chunk of control data from one client comes to.
pub struct Served {
    /// The bytes to write back: `OK` for each acknowledged heartbeat, then
    /// `BYE` after a disconnect.
    pub replies: Vec<u8>,
    /// Whether the client asked to leave; the connection is then closed.
    pub closed: bool,
}

/// The reply to an acknowledged heartbeat.
pub open spec fn spec_ok_line() -> Seq<u8> {
    WORD_OK@ + seq![NEWLINE]
}

/// The reply to a disconnect.
pub open spec fn spec_bye_line() -> Seq<u8> {
    WORD_BYE@ + seq![NEWLINE]
}

/// The notice written to clients when the server stops.
pub open spec fn spec_stop_line() -> Seq<u8> {
    WORD_SERVER_STOP@ + seq![NEWLINE]
}

/// What the lines of `data` from position `from` on come to for the peer
/// `id`: the registry afterwards, the replies, and whether the client left.
///
/// Lines end at a line feed. An acknowledged heartbeat marks the peer as
/// heard at `now_ms` and is answered; a disconnect removes the peer, is
/// answered, and ends the reading.
pub open spec fn spec_serve(
    entries: Map<u64, ClientView>,
    id: u64,
    data: Seq<u8>,
    from: int,
    now_ms: u64,
) -> (Map<u64, ClientView>, Seq<u8>, bool)
    decreases data.len() - from,
{
    if from < 0 || from >= data.len() {
        (entries, Seq::empty(), false)
    } else {
        let found = spec_find(data, NEWLINE, from);
        let end = if from <= found <= data.len() {
            found
        } else {
            data.len() as int
        };
        let next = if end < data.len() {
            end + 1
        } else {
            end
        };
        match spec_command(data.subrange(from, end)) {
            CommandView::Disconnect => (entries.remove(id), spec_bye_line(), true),
            CommandView::Heart(key) => {
                let rest = spec_serve(
                    spec_heartbeat(entries, id, key, now_ms),
                    id,
                    data,
                    next,
                    now_ms,
                );
                if spec_heartbeat_ok(entries, id, key) {
                    (rest.0, spec_ok_line() + rest.1, rest.2)
                } else {
                    rest
                }
            },
            CommandView::Ignored => spec_serve(entries, id, data, next, now_ms),
        }
    }
}

/// Carries out the commands in a chunk of control data from the peer `id`,
/// read at `now_ms`; see [`spec_serve`].
pub fn serve(registry: &mut ClientRegistry, id: u64, data: &[u8], now_ms: u64) -> (served: Served)
    requires
        old(registry).wf(),
    ensures
        final(registry).wf(),
        final(registry).entries() == spec_serve(old(registry).entries(), id, data@, 0, now_ms).0,
        served.replies@ == spec_serve(old(registry).entries(), id, data@, 0, now_ms).1,
        served.closed == spec_serve(old(registry).entries(), id, data@, 0, now_ms).2,
{
    let n: usize = data.len();
    let mut replies: Vec<u8> = Vec::new();
    let mut from: usize = 0;
    let ghost before = registry.entries();
    while from < n
        invariant
            n == data@.len(),
            from <= n,
            registry.wf(),
            before == old(registry).entries(),
            ({
                let rest = spec_serve(registry.entries(), id, data@, from as int, now_ms);
                let whole = spec_serve(before, id, data@, 0, now_ms);
                &&& whole.0 == rest.0
                &&& whole.1 == replies@ + rest.1
                &&& whole.2 == rest.2
            }),
        decreases n - from,
    {
        let end: usize = find_byte(data, NEWLINE, from);
        let ghost held = registry.entries();
        let ghost sofar = replies@;
        let command = parse_command(slice_subrange(data, from, end));
        assert(command@ == spec_command(data@.subrange(from as int, end as int)));
        match command {
            Command::Disconnect => {
                assert(spec_serve(held, id, data@, from as int, now_ms) == (
                    held.remove(id),
                    spec_bye_line(),
                    true,
                ));
                registry.remove(id);
                push_bytes(&mut replies, WORD_BYE.as_slice());
                replies.push(NEWLINE);
                assert(replies@ =~= sofar + spec_bye_line());
                return Served { replies, closed: true };
            },
            Command::Heart(key) => {
                if registry.heartbeat(id, key.as_slice(), now_ms) {
                    push_bytes(&mut replies, WORD_OK.as_slice());
                    replies.push(NEWLINE);
                    let ghost next = if end < n {
                        end + 1
                    } else {
                        end as int
                    };
                    let ghost rest = spec_serve(registry.entries(), id, data@, next, now_ms);
                    assert(replies@ + rest.1 =~= sofar + (spec_ok_line() + rest.1));
                }
            },
            Command::Ignored => {},
        }
        if end >= n {
            let ghost rest = spec_serve(registry.entries(), id, data@, end as int, now_ms);
            assert(rest.1 =~= Seq::<u8>::empty());
            assert(replies@ + rest.1 =~= replies@);
            return Served { replies, closed: false };
        }
        from = end + 1;
    }
    assert(replies@ + Seq::<u8>::empty() =~= replies@);
    Served { replies, closed: false }
}

/// The notice that the server stops.
pub fn stop_line() -> (line: Vec<u8>)
    ensures
        line@ == spec_stop_line(),
{
    let mut line: Vec<u8> = Vec::new();
    push_bytes(&mut line, WORD_SERVER_STOP.as_slice());
    line.push(NEWLINE);
    assert(line@ =~= spec_stop_line());
    line
}

/// Text that neither starts nor ends with whitespace is left as it is.
pub proof fn lemma_trim_clean(s: Seq<u8>)
    requires
        s.len() > 0,
        !spec_is_space(s[0]),
        !spec_is_space(s[s.len() - 1]),
    ensures
        spec_trim(s) == s,
{
    assert(s.subrange(0, s.len() as int) =~= s);
}

/// The server takes the client's heartbeat line for a heartbeat with the
/// client's key: it marks a registered client with that key as heard and
/// answers `OK`, and does neither for anyone else.
pub proof fn lemma_heartbeat_is_served(
    entries: Map<u64, ClientView>,
    id: u64,
    key: Seq<u8>,
    now_ms: u64,
)
    requires
        spec_is_word(key),
    ensures
        spec_serve(entries, id, spec_heartbeat_line(key), 0, now_ms) == (
            spec_heartbeat(entries, id, key, now_ms),
            if spec_heartbeat_ok(entries, id, key) {
                spec_ok_line()
            } else {
                Seq::<u8>::empty()
            },
            false,
        ),
{
    let data = spec_heartbeat_line(key);
    let end = data.len() - 1;
    let text = WORD_HEART@ + seq![SPACE] + key;
    assert(data =~= text + seq![NEWLINE]);
    assert forall|k: int| 0 <= k < end implies data[k] != NEWLINE by {
        if k >= 6 {
            assert(data[k] == key[k - 6]);
            assert(!spec_is_space(key[k - 6]));
        }
    }
    lemma_find(data, NEWLINE, 0, end);
    assert(data.subrange(0, end) =~= text);
    assert(text[text.len() - 1] == key[key.len() - 1]);
    lemma_trim_clean(text);
    assert(text.subrange(0, 6) =~= WORD_HEART@ + seq![SPACE]);
    let words = seq![WORD_HEART@, key];
    assert(spec_is_word(WORD_HEART@));
    lemma_tokens_line(words);
    assert(spec_join(words) =~= text) by {
        reveal_with_fuel(spec_join, 3);
        assert(words.drop_first() =~= seq![key]);
    }
    assert(spec_command(text) == CommandView::Heart(key));
    let after = spec_heartbeat(entries, id, key, now_ms);
    assert(spec_serve(after, id, data, data.len() as int, now_ms) == (
        after,
        Seq::<u8>::empty(),
        false,
    ));
    assert(spec_ok_line() + Seq::<u8>::empty() =~= spec_ok_line());
}

/// The server takes the client's disconnect line for a disconnect: the
/// client leaves the registry and is answered `BYE`.
pub proof fn lemma_disconnect_is_served(entries: Map<u64, ClientView>, id: u64, now_ms: u64)
    ensures
        spec_serve(entries, id, WORD_DISCONNECT@ + seq![NEWLINE], 0, now_ms) == (
            entries.remove(id),
            spec_bye_line(),
            true,
        ),
{
    let data = WORD_DISCONNECT@ + seq![NEWLINE];
    lemma_find(data, NEWLINE, 0, 10);
    assert(data.subrange(0, 10) =~= WORD_DISCONNECT@);
    lemma_trim_clean(WORD_DISCONNECT@);
    assert(!spec_starts_with(WORD_DISCONNECT@, WORD_HEART@ + seq![SPACE])) by {
        if spec_starts_with(WORD_DISCONNECT@, WORD_HEART@ + seq![SPACE]) {
            assert(WORD_DISCONNECT@.subrange(0, 6)[0] == (WORD_HEART@ + seq![SPACE])[0]);
        }
    }
}

} // verus!
