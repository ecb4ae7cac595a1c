use vstd::prelude::*;
use vstd::string::*;

use crate::sessions::{add_spec, ensure_spec, remove_spec, PeerAddr, SessionManager};

verus! {

/// A character with the Unicode White_Space property.
pub open spec fn is_ws(c: char) -> bool {
    let v = c as u32;
    (0x09 <= v && v <= 0x0D) || v == 0x20 || v == 0x85 || v == 0xA0 || v == 0x1680 || (0x2000 <= v
        && v <= 0x200A) || v == 0x2028 || v == 0x2029 || v == 0x202F || v == 0x205F || v == 0x3000
}

/// The first index from `i` on that holds no white space (or the length).
pub open spec fn skip_ws(s: Seq<char>, i: int) -> int
    decreases s.len() - i,
{
    if i < s.len() && is_ws(s[i]) {
        skip_ws(s, i + 1)
    } else {
        i
    }
}

/// The first index from `i` on that holds white space (or the length).
pub open spec fn token_end(s: Seq<char>, i: int) -> int
    decreases s.len() - i,
{
    if i < s.len() && !is_ws(s[i]) {
        token_end(s, i + 1)
    } else {
        i
    }
}

/// The first whitespace-separated word of `s` (empty when there is none).
pub open spec fn first_word(s: Seq<char>) -> Seq<char> {
    let a = skip_ws(s, 0);
    s.subrange(a, token_end(s, a))
}

/// The second whitespace-separated word of `s` (empty when there is none).
pub open spec fn second_word(s: Seq<char>) -> Seq<char> {
    let a = skip_ws(s, 0);
    let b = skip_ws(s, token_end(s, a));
    s.subrange(b, token_end(s, b))
}

/// The word `JOIN`.
pub open spec fn join_word() -> Seq<char> {
    seq!['J', 'O', 'I', 'N']
}

/// The word `LEAVE`.
pub open spec fn leave_word() -> Seq<char> {
    seq!['L', 'E', 'A', 'V', 'E']
}

/// A command read from a member's reliable channel.
pub enum Command {
    /// `JOIN <id>`.
    Join(String),
    /// `JOIN` with no identifier; it gets no reply.
    JoinWithoutId,
    /// `LEAVE`.
    Leave,
    /// Anything else.
    Unknown,
}

/// A reply line to a member.
#[derive(PartialEq, Eq, Structural, Clone, Copy, Debug)]
pub enum Reply {
    Joined,
    SessionFull,
    Left,
    UnknownCommand,
}

impl Reply {
    /// The line sent for this reply, newline included.
    pub fn line(&self) -> (r: &'static str)
        ensures
            r@ == reply_text(*self),
    {
        proof {
            reveal_strlit("OK: joined session\n");
            reveal_strlit("ERROR: session full\n");
            reveal_strlit("OK: left session\n");
            reveal_strlit("ERROR: unknown command\n");
        }
        match self {
            Reply::Joined => "OK: joined session\n",
            Reply::SessionFull => "ERROR: session full\n",
            Reply::Left => "OK: left session\n",
            Reply::UnknownCommand => "ERROR: unknown command\n",
        }
    }
}

/// The text of each reply.
pub open spec fn reply_text(r: Reply) -> Seq<char> {
    match r {
        Reply::Joined => "OK: joined session\n"@,
        Reply::SessionFull => "ERROR: session full\n"@,
        Reply::Left => "OK: left session\n"@,
        Reply::UnknownCommand => "ERROR: unknown command\n"@,
    }
}

/// What the peer-notification line of the reliable channel says.
#[derive(PartialEq, Eq, Structural, Clone, Copy, Debug)]
pub enum ControlEvent {
    /// A line starting with `CONNECTED`: the peer is reachable.
    Connected,
    /// A line starting with `DISCONNECTED`: the peer has gone.
    Disconnected,
    /// Anything else.
    Other,
}

/// The bytes of `CONNECTED`.
pub open spec fn connected_bytes() -> Seq<u8> {
    seq![67u8, 79, 78, 78, 69, 67, 84, 69, 68]
}

/// The bytes of `DISCONNECTED`.
pub open spec fn disconnected_bytes() -> Seq<u8> {
    seq![68u8, 73, 83, 67, 79, 78, 78, 69, 67, 84, 69, 68]
}

/// `p` is a prefix of `s`.
pub open spec fn has_prefix<T>(s: Seq<T>, p: Seq<T>) -> bool {
    p.len() <= s.len() && s.subrange(0, p.len() as int) == p
}

fn is_whitespace(c: char) -> (r: bool)
    ensures
        r == is_ws(c),
{
    let v = c as u32;
    (0x09 <= v && v <= 0x0D) || v == 0x20 || v == 0x85 || v == 0xA0 || v == 0x1680 || (0x2000 <= v
        && v <= 0x200A) || v == 0x2028 || v == 0x2029 || v == 0x202F || v == 0x205F || v == 0x3000
}

fn skip_ws_exec(s: &str, n: usize, i: usize) -> (r: usize)
    requires
        n == s@.len(),
        i <= n,
    ensures
        r == skip_ws(s@, i as int),
        i <= r <= n,
{
    let mut j = i;
    while j < n && is_whitespace(s.get_char(j))
        invariant
            n == s@.len(),
            i <= j <= n,
            skip_ws(s@, j as int) == skip_ws(s@, i as int),
        decreases n - j,
    {
        j = j + 1;
    }
    j
}

fn token_end_exec(s: &str, n: usize, i: usize) -> (r: usize)
    requires
        n == s@.len(),
        i <= n,
    ensures
        r == token_end(s@, i as int),
        i <= r <= n,
{
    let mut j = i;
    while j < n && !is_whitespace(s.get_char(j))
        invariant
            n == s@.len(),
            i <= j <= n,
            token_end(s@, j as int) == token_end(s@, i as int),
        decreases n - j,
    {
        j = j + 1;
    }
    j
}

/// Characters `a` up to `b` of `s` equal `word`.
fn word_is(s: &str, a: usize, b: usize, word: &str) -> (r: bool)
    requires
        a <= b <= s@.len(),
    ensures
        r == (s@.subrange(a as int, b as int) == word@),
{
    let m = word.unicode_len();
    if b - a != m {
        return false;
    }
    let mut k: usize = 0;
    while k < m
        invariant
            a <= b <= s@.len(),
            m == word@.len(),
            b - a == m,
            k <= m,
            forall|j: int| 0 <= j < k ==> s@[a + j] == word@[j],
        decreases m - k,
    {
        if s.get_char(a + k) != word.get_char(k) {
            assert(s@.subrange(a as int, b as int)[k as int] != word@[k as int]);
            return false;
        }
        k = k + 1;
    }
    assert(s@.subrange(a as int, b as int) =~= word@);
    true
}

/// Reads one command line: its first word picks the command, and `JOIN`
/// takes the second word as the session identifier.
pub fn parse_command(line: &str) -> (r: Command)
    ensures
        match r {
            Command::Join(id) => first_word(line@) == join_word() && id@ == second_word(line@)
                && id@.len() > 0,
            Command::JoinWithoutId => first_word(line@) == join_word() && second_word(line@).len()
                == 0,
            Command::Leave => first_word(line@) == leave_word(),
            Command::Unknown => first_word(line@) != join_word() && first_word(line@) != leave_word(),
        },
{
    proof {
        reveal_strlit("JOIN");
        reveal_strlit("LEAVE");
    }
    let n = line.unicode_len();
    let a = skip_ws_exec(line, n, 0);
    let b = token_end_exec(line, n, a);
    if word_is(line, a, b, "JOIN") {
        assert("JOIN"@ =~= join_word());
        let c = skip_ws_exec(line, n, b);
        let d = token_end_exec(line, n, c);
        if d > c {
            let id = line.substring_char(c, d).to_owned();
            Command::Join(id)
        } else {
            Command::JoinWithoutId
        }
    } else if word_is(line, a, b, "LEAVE") {
        assert("LEAVE"@ =~= leave_word());
        Command::Leave
    } else {
        assert("JOIN"@ =~= join_word());
        assert("LEAVE"@ =~= leave_word());
        Command::Unknown
    }
}

/// Handles `JOIN <id>` from the member at `addr`: creates the session if
/// needed and adds the member; replies `Joined`, or `SessionFull` when the
/// member was refused.
pub fn handle_join<N>(mgr: &mut SessionManager<N>, id: &str, addr: PeerAddr, notify: N) -> (r: Reply)
    requires
        old(mgr).wf(),
    ensures
        final(mgr).wf(),
        ({
            let (s, added) = add_spec(ensure_spec(old(mgr)@, id@), id@, addr, notify);
            &&& final(mgr)@ == s
            &&& r == if added {
                Reply::Joined
            } else {
                Reply::SessionFull
            }
        }),
{
    mgr.ensure_session(id);
    if mgr.add_client(id, addr, notify) {
        Reply::Joined
    } else {
        Reply::SessionFull
    }
}

/// Handles `LEAVE` from the member at `addr` (its peer has been sent
/// `Disconnect` already): removes the member and replies `Left`.
pub fn handle_leave<N>(mgr: &mut SessionManager<N>, addr: PeerAddr) -> (r: Reply)
    requires
        old(mgr).wf(),
    ensures
        final(mgr).wf(),
        final(mgr)@ == remove_spec(old(mgr)@, addr),
        r == Reply::Left,
{
    mgr.remove_client(addr);
    Reply::Left
}

/// `p` is a prefix of `s`.
fn starts_with_bytes(s: &[u8], p: &[u8]) -> (r: bool)
    ensures
        r == has_prefix(s@, p@),
{
    if p.len() > s.len() {
        return false;
    }
    let mut k: usize = 0;
    while k < p.len()
        invariant
            p@.len() <= s@.len(),
            k <= p@.len(),
            forall|j: int| 0 <= j < k ==> s@[j] == p@[j],
        decreases p@.len() - k,
    {
        if s[k] != p[k] {
            assert(s@.subrange(0, p@.len() as int)[k as int] != p@[k as int]);
            return false;
        }
        k = k + 1;
    }
    assert(s@.subrange(0, p@.len() as int) =~= p@);
    true
}

/// What a notification read on the reliable channel says.
pub fn parse_control_message(msg: &[u8]) -> (r: ControlEvent)
    ensures
        r == (if has_prefix(msg@, connected_bytes()) {
            ControlEvent::Connected
        } else if has_prefix(msg@, disconnected_bytes()) {
            ControlEvent::Disconnected
        } else {
            ControlEvent::Other
        }),
{
    let connected: [u8; 9] = [67u8, 79, 78, 78, 69, 67, 84, 69, 68];
    let disconnected: [u8; 12] = [68u8, 73, 83, 67, 79, 78, 78, 69, 67, 84, 69, 68];
    assert(connected@ =~= connected_bytes());
    assert(disconnected@ =~= disconnected_bytes());
    if starts_with_bytes(msg, connected.as_slice()) {
        ControlEvent::Connected
    } else if starts_with_bytes(msg, disconnected.as_slice()) {
        ControlEvent::Disconnected
    } else {
        ControlEvent::Other
    }
}

/// Whether the server's reply to `JOIN` accepts it: after leading white
/// space, it starts with `OK`.
pub fn is_ok_reply(line: &str) -> (r: bool)
    ensures
        r == has_prefix(line@.skip(skip_ws(line@, 0)), seq!['O', 'K']),
{
    let n = line.unicode_len();
    let a = skip_ws_exec(line, n, 0);
    if n - a < 2 {
        return false;
    }
    let r = line.get_char(a) == 'O' && line.get_char(a + 1) == 'K';
    proof {
        if r {
            assert(line@.skip(a as int).subrange(0, 2) =~= seq!['O', 'K']);
        } else {
            assert(line@.skip(a as int).subrange(0, 2)[0] == line@[a as int]);
            assert(line@.skip(a as int).subrange(0, 2)[1] == line@[a + 1]);
        }
    }
    r
}

} // verus!
