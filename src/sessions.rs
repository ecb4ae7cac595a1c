use vstd::prelude::*;

verus! {

/// The host part of a network address.
#[derive(PartialEq, Eq, Structural, Clone, Copy, Debug)]
pub enum Host {
    /// An IPv4 address, as its 32-bit value.
    V4(u32),
    /// An IPv6 address, as its 128-bit value.
    V6(u128),
}

/// A network address: a host and a port.
#[derive(PartialEq, Eq, Structural, Clone, Copy, Debug)]
pub struct PeerAddr {
    pub host: Host,
    pub port: u16,
}

/// A notification for a member of a session, sent over its reliable channel.
pub enum Message {
    /// Both members of the session are present and reachable on the
    /// unreliable channel.
    Connect(String),
    /// The peer has left.
    Disconnect,
}

/// A member of a session: its reliable-channel address, the unreliable-channel
/// address learned from its first datagram, and the handle of its notify
/// channel.
pub struct Member<N> {
    pub reliable: PeerAddr,
    pub unreliable: Option<PeerAddr>,
    pub notify: N,
}

/// A named rendezvous of at most two members.
pub struct Session<N> {
    pub id: String,
    pub client_a: Option<Member<N>>,
    pub client_b: Option<Member<N>>,
    /// Set once `Connect` has gone out to both members; cleared when a member leaves.
    pub connected_notified: bool,
}

impl<N> Session<N> {
    /// An empty session named `id`.
    pub fn new(id: String) -> (r: Self)
        ensures
            r@ == empty_session::<N>(id@),
    {
        Session { id, client_a: None, client_b: None, connected_notified: false }
    }

    /// Whether a slot is free.
    pub fn has_open_slot(&self) -> (r: bool)
        ensures
            r == (self.client_a is None || self.client_b is None),
    {
        self.client_a.is_none() || self.client_b.is_none()
    }

    /// Whether both slots are free.
    pub fn is_empty(&self) -> (r: bool)
        ensures
            r == (self.client_a is None && self.client_b is None),
    {
        self.client_a.is_none() && self.client_b.is_none()
    }

    /// The unreliable address of the peer of the member with reliable
    /// address `reliable`, if that member is here and its peer is bound.
    pub fn get_peer_udp(&self, reliable: PeerAddr) -> (r: Option<PeerAddr>)
        ensures
            r == (if self.client_a is Some && self.client_a->Some_0.reliable == reliable {
                match self.client_b {
                    Some(m) => m.unreliable,
                    None => None,
                }
            } else if self.client_b is Some && self.client_b->Some_0.reliable == reliable {
                match self.client_a {
                    Some(m) => m.unreliable,
                    None => None,
                }
            } else {
                None
            }),
    {
        let own_a = match &self.client_a {
            Some(m) => m.reliable == reliable,
            None => false,
        };
        if own_a {
            return match &self.client_b {
                Some(m) => m.unreliable,
                None => None,
            };
        }
        let own_b = match &self.client_b {
            Some(m) => m.reliable == reliable,
            None => false,
        };
        if own_b {
            return match &self.client_a {
                Some(m) => m.unreliable,
                None => None,
            };
        }
        None
    }
}

/// What a session is, with its identifier as a character sequence.
pub struct SessionView<N> {
    pub id: Seq<char>,
    pub a: Option<Member<N>>,
    pub b: Option<Member<N>>,
    pub latched: bool,
}

impl<N> View for Session<N> {
    type V = SessionView<N>;

    open spec fn view(&self) -> SessionView<N> {
        SessionView {
            id: self.id@,
            a: self.client_a,
            b: self.client_b,
            latched: self.connected_notified,
        }
    }
}

/// Slot A (`false`) or slot B (`true`) of a session.
pub open spec fn slot_of<N>(v: SessionView<N>, b: bool) -> Option<Member<N>> {
    if b {
        v.b
    } else {
        v.a
    }
}

/// The member in slot `b` of session `i`, if `i` is an index of `s`.
pub open spec fn member_at<N>(s: Seq<SessionView<N>>, i: int, b: bool) -> Option<Member<N>> {
    if 0 <= i < s.len() {
        slot_of(s[i], b)
    } else {
        None
    }
}

/// Slot `b` of session `i` holds the member with reliable address `addr`.
pub open spec fn holds_reliable<N>(s: Seq<SessionView<N>>, i: int, b: bool, addr: PeerAddr) -> bool {
    &&& member_at(s, i, b) is Some
    &&& member_at(s, i, b)->Some_0.reliable == addr
}

/// Slot `b` of session `i` holds the member bound to unreliable address `u`.
pub open spec fn holds_unreliable<N>(s: Seq<SessionView<N>>, i: int, b: bool, u: PeerAddr) -> bool {
    &&& member_at(s, i, b) is Some
    &&& member_at(s, i, b)->Some_0.unreliable == Some(u)
}

/// Slot `b` of session `i` holds a member on `host` that has no unreliable
/// address yet.
pub open spec fn is_candidate<N>(s: Seq<SessionView<N>>, i: int, b: bool, host: Host) -> bool {
    &&& member_at(s, i, b) is Some
    &&& member_at(s, i, b)->Some_0.unreliable is None
    &&& member_at(s, i, b)->Some_0.reliable.host == host
}

/// The invariant of the registry: identifiers are unique; no reliable address
/// and no unreliable address belongs to two members; a learned unreliable
/// address shares its member's host.
pub open spec fn manager_wf<N>(s: Seq<SessionView<N>>) -> bool {
    &&& forall|i: int, j: int|
        #![trigger s[i].id, s[j].id]
        0 <= i < s.len() && 0 <= j < s.len() && i != j ==> s[i].id != s[j].id
    &&& forall|i: int, b: bool, j: int, c: bool|
        #![trigger member_at(s, i, b), member_at(s, j, c)]
        member_at(s, i, b) is Some && member_at(s, j, c) is Some && (i != j || b != c)
            ==> member_at(s, i, b)->Some_0.reliable != member_at(s, j, c)->Some_0.reliable
    &&& forall|i: int, b: bool, j: int, c: bool|
        #![trigger member_at(s, i, b), member_at(s, j, c)]
        member_at(s, i, b) is Some && member_at(s, j, c) is Some && (i != j || b != c)
            && member_at(s, i, b)->Some_0.unreliable is Some ==> member_at(s, i, b)->Some_0.unreliable
            != member_at(s, j, c)->Some_0.unreliable
    &&& forall|i: int, b: bool|
        #![trigger member_at(s, i, b)]
        member_at(s, i, b) is Some && member_at(s, i, b)->Some_0.unreliable is Some
            ==> member_at(s, i, b)->Some_0.unreliable->Some_0.host == member_at(
            s,
            i,
            b,
        )->Some_0.reliable.host
}

/// Index of the session named `id`.
pub open spec fn find_session<N>(s: Seq<SessionView<N>>, id: Seq<char>) -> Option<int> {
    if exists|i: int| 0 <= i < s.len() && s[i].id == id {
        Some(choose|i: int| 0 <= i < s.len() && s[i].id == id)
    } else {
        None
    }
}

/// Session index and slot of the member with reliable address `addr`.
pub open spec fn find_member<N>(s: Seq<SessionView<N>>, addr: PeerAddr) -> Option<(int, bool)> {
    if exists|p: (int, bool)| holds_reliable(s, p.0, p.1, addr) {
        Some(choose|p: (int, bool)| holds_reliable(s, p.0, p.1, addr))
    } else {
        None
    }
}

/// Session index and slot of the member bound to unreliable address `u`.
pub open spec fn find_bound<N>(s: Seq<SessionView<N>>, u: PeerAddr) -> Option<(int, bool)> {
    if exists|p: (int, bool)| holds_unreliable(s, p.0, p.1, u) {
        Some(choose|p: (int, bool)| holds_unreliable(s, p.0, p.1, u))
    } else {
        None
    }
}

/// The one member on `host` still waiting for its unreliable address, if there
/// is exactly one.
pub open spec fn unique_candidate<N>(s: Seq<SessionView<N>>, host: Host) -> Option<(int, bool)> {
    if exists|p: (int, bool)|
        is_candidate(s, p.0, p.1, host) && forall|q: (int, bool)|
            is_candidate(s, q.0, q.1, host) ==> q == p {
        Some(
            choose|p: (int, bool)|
                is_candidate(s, p.0, p.1, host) && forall|q: (int, bool)|
                    is_candidate(s, q.0, q.1, host) ==> q == p,
        )
    } else {
        None
    }
}

/// A session named `id` with no members.
pub open spec fn empty_session<N>(id: Seq<char>) -> SessionView<N> {
    SessionView { id, a: None, b: None, latched: false }
}

/// Registry after `ensure_session(id)`.
pub open spec fn ensure_spec<N>(s: Seq<SessionView<N>>, id: Seq<char>) -> Seq<SessionView<N>> {
    if find_session(s, id) is Some {
        s
    } else {
        s.push(empty_session(id))
    }
}

/// Registry and result after `add_client(id, addr, n)`: the client takes slot A
/// if it is free, else slot B; it is refused when the session is absent or
/// full, or when `addr` is already a member.
pub open spec fn add_spec<N>(s: Seq<SessionView<N>>, id: Seq<char>, addr: PeerAddr, n: N) -> (
    Seq<SessionView<N>>,
    bool,
) {
    let m = Member { reliable: addr, unreliable: None, notify: n };
    if find_member(s, addr) is Some {
        (s, false)
    } else {
        match find_session(s, id) {
            None => (s, false),
            Some(i) => if s[i].a is None {
                (s.update(i, SessionView { a: Some(m), ..s[i] }), true)
            } else if s[i].b is None {
                (s.update(i, SessionView { b: Some(m), ..s[i] }), true)
            } else {
                (s, false)
            },
        }
    }
}

/// Session view with slot `b` replaced by `m`.
pub open spec fn with_slot<N>(v: SessionView<N>, b: bool, m: Option<Member<N>>) -> SessionView<N> {
    if b {
        SessionView { b: m, ..v }
    } else {
        SessionView { a: m, ..v }
    }
}

/// Registry after `map_udp_to_tcp(u)`: unless `u` is bound already, the one
/// member on `u`'s host without an unreliable address is bound to `u`; with
/// no such member, or several, nothing changes.
pub open spec fn bind_spec<N>(s: Seq<SessionView<N>>, u: PeerAddr) -> Seq<SessionView<N>> {
    if find_bound(s, u) is Some {
        s
    } else {
        match unique_candidate(s, u.host) {
            None => s,
            Some(p) => {
                let m = member_at(s, p.0, p.1)->Some_0;
                s.update(p.0, with_slot(s[p.0], p.1, Some(Member { unreliable: Some(u), ..m })))
            },
        }
    }
}

/// The unreliable address of the peer of the member bound to `u`.
pub open spec fn peer_unreliable_spec<N>(s: Seq<SessionView<N>>, u: PeerAddr) -> Option<PeerAddr> {
    match find_bound(s, u) {
        None => None,
        Some(p) => match member_at(s, p.0, !p.1) {
            None => None,
            Some(m) => m.unreliable,
        },
    }
}

/// The notify handle of the peer of the member with reliable address `addr`.
pub open spec fn peer_notify_spec<N>(s: Seq<SessionView<N>>, addr: PeerAddr) -> Option<N> {
    match find_member(s, addr) {
        None => None,
        Some(p) => match member_at(s, p.0, !p.1) {
            None => None,
            Some(m) => Some(m.notify),
        },
    }
}

/// Registry after `remove_client(addr)`: the member leaves its slot and the
/// session's latch is cleared; a session left empty is dropped.
pub open spec fn remove_spec<N>(s: Seq<SessionView<N>>, addr: PeerAddr) -> Seq<SessionView<N>> {
    match find_member(s, addr) {
        None => s,
        Some(p) => {
            let v = SessionView { latched: false, ..with_slot(s[p.0], p.1, None) };
            if v.a is None && v.b is None {
                s.remove(p.0)
            } else {
                s.update(p.0, v)
            }
        },
    }
}

/// Registry after `mark_connected(id)`.
pub open spec fn mark_spec<N>(s: Seq<SessionView<N>>, id: Seq<char>) -> Seq<SessionView<N>> {
    match find_session(s, id) {
        None => s,
        Some(i) => s.update(i, SessionView { latched: true, ..s[i] }),
    }
}

/// Whether the session named `id` has sent its `Connect`.
pub open spec fn is_connected_spec<N>(s: Seq<SessionView<N>>, id: Seq<char>) -> bool {
    match find_session(s, id) {
        None => false,
        Some(i) => s[i].latched,
    }
}

/// What the relay does with one datagram: where it forwards it, and the
/// `Connect` it sends first, if any.
pub struct RelayView {
    pub forward_to: Option<PeerAddr>,
    /// Session identifier, and the reliable addresses of the sender and of its peer.
    pub connect: Option<(Seq<char>, PeerAddr, PeerAddr)>,
}

/// Registry and action after a datagram from `u`: `u` is bound if it can be;
/// a datagram from a member whose peer is bound goes to the peer, preceded by
/// `Connect` to both members the first time in the session's epoch; any other
/// datagram is dropped.
pub open spec fn relay_spec<N>(s: Seq<SessionView<N>>, u: PeerAddr) -> (
    Seq<SessionView<N>>,
    RelayView,
) {
    let s1 = bind_spec(s, u);
    match peer_unreliable_spec(s1, u) {
        None => (s1, RelayView { forward_to: None, connect: None }),
        Some(dst) => {
            let p = find_bound(s1, u)->Some_0;
            if s1[p.0].latched {
                (s1, RelayView { forward_to: Some(dst), connect: None })
            } else {
                (
                    s1.update(p.0, SessionView { latched: true, ..s1[p.0] }),
                    RelayView {
                        forward_to: Some(dst),
                        connect: Some(
                            (
                                s1[p.0].id,
                                member_at(s1, p.0, p.1)->Some_0.reliable,
                                member_at(s1, p.0, !p.1)->Some_0.reliable,
                            ),
                        ),
                    },
                )
            }
        },
    }
}

/// A `Connect` to send: to both members of session `session_id`.
pub struct ConnectNotice {
    pub session_id: String,
    /// Reliable address of the member whose datagram completed the pairing.
    pub src_reliable: PeerAddr,
    /// Reliable address of its peer.
    pub dst_reliable: PeerAddr,
}

/// What to do with one datagram.
pub struct RelayAction {
    /// Where to forward the payload; `None` drops it.
    pub forward_to: Option<PeerAddr>,
    /// The `Connect` to deliver before forwarding, if any.
    pub connect: Option<ConnectNotice>,
}

impl View for RelayAction {
    type V = RelayView;

    open spec fn view(&self) -> RelayView {
        RelayView {
            forward_to: self.forward_to,
            connect: match self.connect {
                None => None,
                Some(c) => Some((c.session_id@, c.src_reliable, c.dst_reliable)),
            },
        }
    }
}

/// Adding a session with a fresh identifier and no members keeps the invariant.
proof fn lemma_push_empty_wf<N>(s: Seq<SessionView<N>>, id: Seq<char>)
    requires
        manager_wf(s),
        find_session(s, id) is None,
    ensures
        manager_wf(s.push(empty_session(id))),
{
    let t = s.push(empty_session::<N>(id));
    assert forall|i: int, b: bool| #[trigger] member_at(t, i, b) == member_at(s, i, b) by {}
    assert forall|i: int, j: int|
        0 <= i < t.len() && 0 <= j < t.len() && i != j implies #[trigger] t[i].id != #[trigger] t[j].id by {
        if i < s.len() && j < s.len() {
            assert(s[i].id == t[i].id);
            assert(s[j].id == t[j].id);
        } else if i == s.len() {
            assert(t[j].id == s[j].id);
            assert(!(0 <= j < s.len() && s[j].id == id));
        } else {
            assert(t[i].id == s[i].id);
            assert(!(0 <= i < s.len() && s[i].id == id));
        }
    }
}

/// Filling slot `b` of session `i` with a member whose addresses no other
/// member holds (and whose unreliable address, if any, shares its host) keeps
/// the invariant.
proof fn lemma_set_slot_wf<N>(s: Seq<SessionView<N>>, i: int, b: bool, m: Option<Member<N>>)
    requires
        manager_wf(s),
        0 <= i < s.len(),
        m is Some ==> forall|j: int, c: bool|
            #![trigger member_at(s, j, c)]
            (j != i || c != b) && member_at(s, j, c) is Some ==> member_at(s, j, c)->Some_0.reliable
                != m->Some_0.reliable,
        m is Some && m->Some_0.unreliable is Some ==> forall|j: int, c: bool|
            #![trigger member_at(s, j, c)]
            (j != i || c != b) && member_at(s, j, c) is Some ==> member_at(s, j, c)->Some_0.unreliable
                != m->Some_0.unreliable,
        m is Some && m->Some_0.unreliable is Some ==> m->Some_0.unreliable->Some_0.host
            == m->Some_0.reliable.host,
    ensures
        manager_wf(s.update(i, with_slot(s[i], b, m))),
{
    let t = s.update(i, with_slot(s[i], b, m));
    assert forall|j: int, c: bool| #[trigger]
        member_at(t, j, c) == if j == i && c == b {
            m
        } else {
            member_at(s, j, c)
        } by {}
    assert forall|j: int, k: int|
        0 <= j < t.len() && 0 <= k < t.len() && j != k implies #[trigger] t[j].id != #[trigger] t[k].id by {
        assert(t[j].id == s[j].id);
        assert(t[k].id == s[k].id);
    }
}

/// Replacing session `i` by one with the same identifier whose slots are each
/// unchanged or empty keeps the invariant.
proof fn lemma_shrink_session_wf<N>(s: Seq<SessionView<N>>, i: int, v: SessionView<N>)
    requires
        manager_wf(s),
        0 <= i < s.len(),
        v.id == s[i].id,
        v.a == s[i].a || v.a is None,
        v.b == s[i].b || v.b is None,
    ensures
        manager_wf(s.update(i, v)),
{
    let t = s.update(i, v);
    assert forall|j: int, c: bool| #[trigger]
        member_at(t, j, c) is Some implies member_at(t, j, c) == member_at(s, j, c) by {}
    assert forall|j: int, k: int|
        0 <= j < t.len() && 0 <= k < t.len() && j != k implies #[trigger] t[j].id != #[trigger] t[k].id by {
        assert(t[j].id == s[j].id);
        assert(t[k].id == s[k].id);
    }
}

/// Dropping session `i` keeps the invariant.
proof fn lemma_remove_session_wf<N>(s: Seq<SessionView<N>>, i: int)
    requires
        manager_wf(s),
        0 <= i < s.len(),
    ensures
        manager_wf(s.remove(i)),
{
    let t = s.remove(i);
    assert forall|j: int, c: bool| #[trigger]
        member_at(t, j, c) == member_at(s, if j < i { j } else { j + 1 }, c) by {}
    assert forall|j: int, k: int|
        0 <= j < t.len() && 0 <= k < t.len() && j != k implies #[trigger] t[j].id != #[trigger] t[k].id by {
        let j2 = if j < i { j } else { j + 1 };
        let k2 = if k < i { k } else { k + 1 };
        assert(t[j].id == s[j2].id);
        assert(t[k].id == s[k2].id);
    }
    assert forall|j: int, b: bool, k: int, c: bool|
        #![trigger member_at(t, j, b), member_at(t, k, c)]
        member_at(t, j, b) is Some && member_at(t, k, c) is Some && (j != k || b != c)
            implies member_at(t, j, b)->Some_0.reliable != member_at(t, k, c)->Some_0.reliable
            && (member_at(t, j, b)->Some_0.unreliable is Some ==> member_at(t, j, b)->Some_0.unreliable
            != member_at(t, k, c)->Some_0.unreliable) by {
        let j2 = if j < i { j } else { j + 1 };
        let k2 = if k < i { k } else { k + 1 };
        assert(member_at(s, j2, b) is Some && member_at(s, k2, c) is Some);
    }
}

/// `add_client` keeps the invariant.
pub proof fn lemma_add_wf<N>(s: Seq<SessionView<N>>, id: Seq<char>, addr: PeerAddr, n: N)
    requires
        manager_wf(s),
    ensures
        manager_wf(add_spec(s, id, addr, n).0),
{
    if find_member(s, addr) is None {
        assert forall|j: int, c: bool| #[trigger]
            member_at(s, j, c) is Some implies member_at(s, j, c)->Some_0.reliable != addr by {
            let w = (j, c);
            if member_at(s, j, c)->Some_0.reliable == addr {
                assert(holds_reliable(s, w.0, w.1, addr));
            }
        }
        let m = Member { reliable: addr, unreliable: None, notify: n };
        match find_session(s, id) {
            None => {},
            Some(i) => {
                assert(0 <= i < s.len());
                if s[i].a is None {
                    assert(SessionView { a: Some(m), ..s[i] } == with_slot(s[i], false, Some(m)));
                    lemma_set_slot_wf(s, i, false, Some(m));
                } else if s[i].b is None {
                    assert(SessionView { b: Some(m), ..s[i] } == with_slot(s[i], true, Some(m)));
                    lemma_set_slot_wf(s, i, true, Some(m));
                }
            },
        }
    }
}

/// `map_udp_to_tcp` keeps the invariant.
pub proof fn lemma_bind_wf<N>(s: Seq<SessionView<N>>, u: PeerAddr)
    requires
        manager_wf(s),
    ensures
        manager_wf(bind_spec(s, u)),
{
    if find_bound(s, u) is None {
        match unique_candidate(s, u.host) {
            None => {},
            Some(p) => {
                assert(is_candidate(s, p.0, p.1, u.host));
                let m = member_at(s, p.0, p.1)->Some_0;
                let nm = Member { unreliable: Some(u), ..m };
                assert forall|j: int, c: bool| #[trigger]
                    member_at(s, j, c) is Some implies member_at(s, j, c)->Some_0.unreliable
                    != Some(u) by {
                    let w = (j, c);
                    if member_at(s, j, c)->Some_0.unreliable == Some(u) {
                        assert(holds_unreliable(s, w.0, w.1, u));
                    }
                }
                assert forall|j: int, c: bool|
                    #![trigger member_at(s, j, c)]
                    (j != p.0 || c != p.1) && member_at(s, j, c) is Some implies member_at(
                        s,
                        j,
                        c,
                    )->Some_0.reliable != nm.reliable by {
                    assert(member_at(s, p.0, p.1) is Some);
                }
                lemma_set_slot_wf(s, p.0, p.1, Some(nm));
            },
        }
    }
}

/// Handling a datagram keeps the invariant.
pub proof fn lemma_relay_wf<N>(s: Seq<SessionView<N>>, u: PeerAddr)
    requires
        manager_wf(s),
    ensures
        manager_wf(relay_spec(s, u).0),
{
    lemma_bind_wf(s, u);
    let s1 = bind_spec(s, u);
    if peer_unreliable_spec(s1, u) is Some {
        let p = find_bound(s1, u)->Some_0;
        let w = choose|p: (int, bool)| holds_unreliable(s1, p.0, p.1, u);
        assert(holds_unreliable(s1, w.0, w.1, u));
        assert(0 <= p.0 < s1.len());
        if !s1[p.0].latched {
            lemma_shrink_session_wf(s1, p.0, SessionView { latched: true, ..s1[p.0] });
        }
    }
}

/// `remove_client` keeps the invariant.
pub proof fn lemma_remove_wf<N>(s: Seq<SessionView<N>>, addr: PeerAddr)
    requires
        manager_wf(s),
    ensures
        manager_wf(remove_spec(s, addr)),
{
    match find_member(s, addr) {
        None => {},
        Some(p) => {
            let w = choose|p: (int, bool)| holds_reliable(s, p.0, p.1, addr);
            assert(holds_reliable(s, w.0, w.1, addr));
            assert(0 <= p.0 < s.len());
            let v = SessionView { latched: false, ..with_slot(s[p.0], p.1, None) };
            if v.a is None && v.b is None {
                lemma_remove_session_wf(s, p.0);
            } else {
                lemma_shrink_session_wf(s, p.0, v);
            }
        },
    }
}

/// The registry of sessions, with lookups by session identifier, by a
/// member's reliable address and by a member's unreliable address.
pub struct SessionManager<N> {
    sessions: Vec<Session<N>>,
}

impl<N> View for SessionManager<N> {
    type V = Seq<SessionView<N>>;

    closed spec fn view(&self) -> Seq<SessionView<N>> {
        self.sessions@.map_values(|x: Session<N>| x@)
    }
}

impl<N> SessionManager<N> {
    /// The registry's invariant holds.
    pub open spec fn wf(&self) -> bool {
        manager_wf(self@)
    }

    /// An empty registry.
    pub fn new() -> (r: Self)
        ensures
            r@ == Seq::<SessionView<N>>::empty(),
            r.wf(),
    {
        let r = SessionManager { sessions: Vec::new() };
        assert(r@ =~= Seq::<SessionView<N>>::empty());
        r
    }

    /// Creates an empty session named `id` unless one exists.
    pub fn ensure_session(&mut self, id: &str)
        requires
            old(self).wf(),
        ensures
            final(self).wf(),
            final(self)@ == ensure_spec(old(self)@, id@),
    {
        let owned = id.to_owned();
        match self.session_index(&owned) {
            Some(_) => {},
            None => {
                let ghost before = self@;
                let sess = Session {
                    id: owned,
                    client_a: None,
                    client_b: None,
                    connected_notified: false,
                };
                self.sessions.push(sess);
                proof {
                    assert(self@ =~= before.push(empty_session(id@)));
                    lemma_push_empty_wf(before, id@);
                }
            },
        }
    }

    /// Places the client with reliable address `reliable` in slot A of session
    /// `id` if it is free, else in slot B; returns false, changing nothing,
    /// when the session is absent or full or the client is a member already.
    pub fn add_client(&mut self, id: &str, reliable: PeerAddr, notify: N) -> (r: bool)
        requires
            old(self).wf(),
        ensures
            final(self).wf(),
            (final(self)@, r) == add_spec(old(self)@, id@, reliable, notify),
    {
        if self.member_index(reliable).is_some() {
            return false;
        }
        proof {
            let s0 = self@;
            assert forall|j: int, c: bool| #[trigger]
                member_at(s0, j, c) is Some implies member_at(s0, j, c)->Some_0.reliable
                != reliable by {
                let w = (j, c);
                if member_at(s0, j, c)->Some_0.reliable == reliable {
                    assert(holds_reliable(s0, w.0, w.1, reliable));
                }
            }
        }
        let owned = id.to_owned();
        match self.session_index(&owned) {
            None => false,
            Some(i) => {
                let ghost before = self@;
                assert(self@[i as int] == self.sessions@[i as int]@);
                let sess = self.sessions.remove(i);
                let Session { id: sid, client_a, client_b, connected_notified } = sess;
                let m = Member { reliable, unreliable: None, notify };
                let ghost mv = m;
                if client_a.is_none() {
                    self.sessions.insert(
                        i,
                        Session { id: sid, client_a: Some(m), client_b, connected_notified },
                    );
                    proof {
                        let nv = SessionView { a: Some(mv), ..before[i as int] };
                        assert(self@ =~= before.update(i as int, nv));
                        lemma_set_slot_wf(before, i as int, false, Some(mv));
                    }
                    true
                } else if client_b.is_none() {
                    self.sessions.insert(
                        i,
                        Session { id: sid, client_a, client_b: Some(m), connected_notified },
                    );
                    proof {
                        let nv = SessionView { b: Some(mv), ..before[i as int] };
                        assert(self@ =~= before.update(i as int, nv));
                        lemma_set_slot_wf(before, i as int, true, Some(mv));
                    }
                    true
                } else {
                    self.sessions.insert(i, Session { id: sid, client_a, client_b, connected_notified });
                    assert(self@ =~= before);
                    false
                }
            },
        }
    }

    /// Learns unreliable address `u` from a datagram: unless `u` is bound
    /// already, binds it to the one member on `u`'s host that has no unreliable
    /// address yet; with no such member, or several, nothing changes.
    pub fn map_udp_to_tcp(&mut self, u: PeerAddr)
        requires
            old(self).wf(),
        ensures
            final(self).wf(),
            final(self)@ == bind_spec(old(self)@, u),
    {
        if self.bound_index(u).is_some() {
            return;
        }
        proof {
            let s0 = self@;
            assert forall|j: int, c: bool| #[trigger]
                member_at(s0, j, c) is Some implies member_at(s0, j, c)->Some_0.unreliable
                != Some(u) by {
                let w = (j, c);
                if member_at(s0, j, c)->Some_0.unreliable == Some(u) {
                    assert(holds_unreliable(s0, w.0, w.1, u));
                }
            }
        }
        match self.sole_candidate(u.host) {
            None => {},
            Some((i, b)) => {
                let ghost before = self@;
                assert(self@[i as int] == self.sessions@[i as int]@);
                let sess = self.sessions.remove(i);
                let Session { id, client_a, client_b, connected_notified } = sess;
                if b {
                    match client_b {
                        Some(m) => {
                            let Member { reliable, unreliable, notify } = m;
                            let nm = Member { reliable, unreliable: Some(u), notify };
                            let ghost nmv = nm;
                            self.sessions.insert(
                                i,
                                Session { id, client_a, client_b: Some(nm), connected_notified },
                            );
                            proof {
                                assert(self@ =~= before.update(
                                    i as int,
                                    with_slot(before[i as int], true, Some(nmv)),
                                ));
                                lemma_set_slot_wf(before, i as int, true, Some(nmv));
                            }
                        },
                        None => {
                            assert(false);
                        },
                    }
                } else {
                    match client_a {
                        Some(m) => {
                            let Member { reliable, unreliable, notify } = m;
                            let nm = Member { reliable, unreliable: Some(u), notify };
                            let ghost nmv = nm;
                            self.sessions.insert(
                                i,
                                Session { id, client_a: Some(nm), client_b, connected_notified },
                            );
                            proof {
                                assert(self@ =~= before.update(
                                    i as int,
                                    with_slot(before[i as int], false, Some(nmv)),
                                ));
                                lemma_set_slot_wf(before, i as int, false, Some(nmv));
                            }
                        },
                        None => {
                            assert(false);
                        },
                    }
                }
            },
        }
    }

    /// The unreliable address of the peer of the member bound to `u`, when
    /// both are bound.
    pub fn get_peer_udp(&self, u: PeerAddr) -> (r: Option<PeerAddr>)
        requires
            self.wf(),
        ensures
            r == peer_unreliable_spec(self@, u),
    {
        match self.bound_index(u) {
            None => None,
            Some((i, b)) => {
                assert(self@[i as int] == self.sessions@[i as int]@);
                let other = if b {
                    &self.sessions[i].client_a
                } else {
                    &self.sessions[i].client_b
                };
                match other {
                    None => None,
                    Some(m) => m.unreliable,
                }
            },
        }
    }

    /// The unreliable address of the peer of the member with reliable address
    /// `reliable`, when the peer is bound.
    pub fn get_peer_udp_from_tcp(&self, reliable: PeerAddr) -> (r: Option<PeerAddr>)
        requires
            self.wf(),
        ensures
            r == (match find_member(self@, reliable) {
                None => None,
                Some(p) => match member_at(self@, p.0, !p.1) {
                    None => None,
                    Some(m) => m.unreliable,
                },
            }),
    {
        match self.member_index(reliable) {
            None => None,
            Some((i, b)) => {
                assert(self@[i as int] == self.sessions@[i as int]@);
                let other = if b {
                    &self.sessions[i].client_a
                } else {
                    &self.sessions[i].client_b
                };
                match other {
                    None => None,
                    Some(m) => m.unreliable,
                }
            },
        }
    }

    /// The notify handle of the peer of the member with reliable address
    /// `reliable`: where a notification for that peer goes.
    pub fn notify_peer(&self, reliable: PeerAddr) -> (r: Option<&N>)
        requires
            self.wf(),
        ensures
            r matches Some(n) ==> peer_notify_spec(self@, reliable) == Some(*n),
            r is None ==> peer_notify_spec(self@, reliable) is None,
    {
        match self.member_index(reliable) {
            None => None,
            Some((i, b)) => {
                assert(self@[i as int] == self.sessions@[i as int]@);
                let other = if b {
                    &self.sessions[i].client_a
                } else {
                    &self.sessions[i].client_b
                };
                match other {
                    None => None,
                    Some(m) => Some(&m.notify),
                }
            },
        }
    }

    /// The reliable address of the member bound to unreliable address `u`.
    pub fn tcp_for_udp(&self, u: PeerAddr) -> (r: Option<PeerAddr>)
        requires
            self.wf(),
        ensures
            r == (match find_bound(self@, u) {
                None => None,
                Some(p) => Some(member_at(self@, p.0, p.1)->Some_0.reliable),
            }),
    {
        match self.bound_index(u) {
            None => None,
            Some((i, b)) => {
                assert(self@[i as int] == self.sessions@[i as int]@);
                let own = if b {
                    &self.sessions[i].client_b
                } else {
                    &self.sessions[i].client_a
                };
                match own {
                    None => None,
                    Some(m) => Some(m.reliable),
                }
            },
        }
    }

    /// The identifier of the session that the member with reliable address
    /// `reliable` belongs to.
    pub fn session_id_for(&self, reliable: PeerAddr) -> (r: Option<String>)
        requires
            self.wf(),
        ensures
            r is Some <==> find_member(self@, reliable) is Some,
            r matches Some(id) ==> id@ == self@[find_member(self@, reliable)->Some_0.0].id,
    {
        match self.member_index(reliable) {
            None => None,
            Some((i, _)) => {
                assert(self@[i as int] == self.sessions@[i as int]@);
                Some(self.sessions[i].id.clone())
            },
        }
    }

    /// Whether session `id` exists with both slots taken.
    pub fn session_full(&self, id: &str) -> (r: bool)
        requires
            self.wf(),
        ensures
            r == (match find_session(self@, id@) {
                None => false,
                Some(i) => self@[i].a is Some && self@[i].b is Some,
            }),
    {
        let owned = id.to_owned();
        match self.session_index(&owned) {
            None => false,
            Some(i) => {
                assert(self@[i as int] == self.sessions@[i as int]@);
                self.sessions[i].client_a.is_some() && self.sessions[i].client_b.is_some()
            },
        }
    }

    /// Whether session `id` has sent its `Connect` in the current epoch.
    pub fn is_connected(&self, id: &str) -> (r: bool)
        requires
            self.wf(),
        ensures
            r == is_connected_spec(self@, id@),
    {
        let owned = id.to_owned();
        match self.session_index(&owned) {
            None => false,
            Some(i) => {
                assert(self@[i as int] == self.sessions@[i as int]@);
                self.sessions[i].connected_notified
            },
        }
    }

    /// Sets the latch of session `id`.
    pub fn mark_connected(&mut self, id: &str)
        requires
            old(self).wf(),
        ensures
            final(self).wf(),
            final(self)@ == mark_spec(old(self)@, id@),
    {
        let owned = id.to_owned();
        match self.session_index(&owned) {
            None => {},
            Some(i) => {
                let ghost before = self@;
                assert(self@[i as int] == self.sessions@[i as int]@);
                let sess = self.sessions.remove(i);
                let Session { id, client_a, client_b, connected_notified } = sess;
                self.sessions.insert(
                    i,
                    Session { id, client_a, client_b, connected_notified: true },
                );
                proof {
                    let nv = SessionView { latched: true, ..before[i as int] };
                    assert(self@ =~= before.update(i as int, nv));
                    lemma_shrink_session_wf(before, i as int, nv);
                }
            },
        }
    }

    /// Removes the member with reliable address `reliable` and clears its
    /// session's latch; a session left without members is dropped.
    pub fn remove_client(&mut self, reliable: PeerAddr)
        requires
            old(self).wf(),
        ensures
            final(self).wf(),
            final(self)@ == remove_spec(old(self)@, reliable),
    {
        match self.member_index(reliable) {
            None => {},
            Some((i, b)) => {
                let ghost before = self@;
                assert(self@[i as int] == self.sessions@[i as int]@);
                let sess = self.sessions.remove(i);
                let Session { id, client_a, client_b, connected_notified } = sess;
                let (na, nb) = if b {
                    (client_a, None)
                } else {
                    (None, client_b)
                };
                if na.is_none() && nb.is_none() {
                    proof {
                        assert(self@ =~= before.remove(i as int));
                        lemma_remove_session_wf(before, i as int);
                    }
                } else {
                    self.sessions.insert(
                        i,
                        Session { id, client_a: na, client_b: nb, connected_notified: false },
                    );
                    proof {
                        let nv = SessionView { latched: false, ..with_slot(before[i as int], b, None) };
                        assert(self@ =~= before.update(i as int, nv));
                        lemma_shrink_session_wf(before, i as int, nv);
                    }
                }
            },
        }
    }

    /// Handles a datagram from unreliable address `src`: learns the address if
    /// it can, and says where the payload goes and whether `Connect` goes out
    /// first. `Connect` goes out once per epoch: the latch it sets is cleared
    /// only when a member leaves.
    pub fn relay_datagram(&mut self, src: PeerAddr) -> (r: RelayAction)
        requires
            old(self).wf(),
        ensures
            final(self).wf(),
            (final(self)@, r@) == relay_spec(old(self)@, src),
    {
        self.map_udp_to_tcp(src);
        let dst = self.get_peer_udp(src);
        match dst {
            None => RelayAction { forward_to: None, connect: None },
            Some(d) => {
                let (i, b) = match self.bound_index(src) {
                    Some(p) => p,
                    None => {
                        assert(false);
                        return RelayAction { forward_to: None, connect: None };
                    },
                };
                assert(self@[i as int] == self.sessions@[i as int]@);
                if self.sessions[i].connected_notified {
                    return RelayAction { forward_to: Some(d), connect: None };
                }
                let (own, other) = if b {
                    (&self.sessions[i].client_b, &self.sessions[i].client_a)
                } else {
                    (&self.sessions[i].client_a, &self.sessions[i].client_b)
                };
                let src_reliable = match own {
                    Some(m) => m.reliable,
                    None => {
                        assert(false);
                        return RelayAction { forward_to: None, connect: None };
                    },
                };
                let dst_reliable = match other {
                    Some(m) => m.reliable,
                    None => {
                        assert(false);
                        return RelayAction { forward_to: None, connect: None };
                    },
                };
                let session_id = self.sessions[i].id.clone();
                let ghost before = self@;
                let sess = self.sessions.remove(i);
                let Session { id, client_a, client_b, connected_notified } = sess;
                self.sessions.insert(
                    i,
                    Session { id, client_a, client_b, connected_notified: true },
                );
                proof {
                    let nv = SessionView { latched: true, ..before[i as int] };
                    assert(self@ =~= before.update(i as int, nv));
                    lemma_shrink_session_wf(before, i as int, nv);
                }
                RelayAction {
                    forward_to: Some(d),
                    connect: Some(ConnectNotice { session_id, src_reliable, dst_reliable }),
                }
            },
        }
    }

    /// Session index and slot of the member with reliable address `addr`.
    fn member_index(&self, addr: PeerAddr) -> (r: Option<(usize, bool)>)
        requires
            self.wf(),
        ensures
            r matches Some(p) ==> find_member(self@, addr) == Some((p.0 as int, p.1)),
            r is None ==> find_member(self@, addr) is None,
    {
        let mut i: usize = 0;
        while i < self.sessions.len()
            invariant
                self.wf(),
                i <= self.sessions@.len(),
                self@.len() == self.sessions@.len(),
                forall|j: int, b: bool| 0 <= j < i ==> !holds_reliable(self@, j, b, addr),
            decreases self.sessions@.len() - i,
        {
            assert(self@[i as int] == self.sessions@[i as int]@);
            let s = &self.sessions[i];
            let mut found: Option<bool> = None;
            match &s.client_a {
                Some(m) => if m.reliable == addr {
                    found = Some(false);
                },
                None => {},
            }
            if found.is_none() {
                match &s.client_b {
                    Some(m) => if m.reliable == addr {
                        found = Some(true);
                    },
                    None => {},
                }
            }
            match found {
                Some(b) => {
                    proof {
                        let w = (i as int, b);
                        assert(holds_reliable(self@, w.0, w.1, addr));
                        let c = choose|p: (int, bool)| holds_reliable(self@, p.0, p.1, addr);
                        assert(holds_reliable(self@, c.0, c.1, addr));
                        assert(member_at(self@, c.0, c.1) is Some);
                        assert(member_at(self@, i as int, b) is Some);
                        assert(c == (i as int, b));
                    }
                    return Some((i, b));
                },
                None => {
                    assert(!holds_reliable(self@, i as int, false, addr));
                    assert(!holds_reliable(self@, i as int, true, addr));
                },
            }
            i = i + 1;
        }
        None
    }

    /// Session index and slot of the member bound to unreliable address `u`.
    fn bound_index(&self, u: PeerAddr) -> (r: Option<(usize, bool)>)
        requires
            self.wf(),
        ensures
            r matches Some(p) ==> find_bound(self@, u) == Some((p.0 as int, p.1)),
            r is None ==> find_bound(self@, u) is None,
    {
        let mut i: usize = 0;
        while i < self.sessions.len()
            invariant
                self.wf(),
                i <= self.sessions@.len(),
                self@.len() == self.sessions@.len(),
                forall|j: int, b: bool| 0 <= j < i ==> !holds_unreliable(self@, j, b, u),
            decreases self.sessions@.len() - i,
        {
            assert(self@[i as int] == self.sessions@[i as int]@);
            let s = &self.sessions[i];
            let mut found: Option<bool> = None;
            match &s.client_a {
                Some(m) => if m.unreliable == Some(u) {
                    found = Some(false);
                },
                None => {},
            }
            if found.is_none() {
                match &s.client_b {
                    Some(m) => if m.unreliable == Some(u) {
                        found = Some(true);
                    },
                    None => {},
                }
            }
            match found {
                Some(b) => {
                    proof {
                        let w = (i as int, b);
                        assert(holds_unreliable(self@, w.0, w.1, u));
                        let c = choose|p: (int, bool)| holds_unreliable(self@, p.0, p.1, u);
                        assert(holds_unreliable(self@, c.0, c.1, u));
                        assert(member_at(self@, c.0, c.1) is Some);
                        assert(member_at(self@, i as int, b) is Some);
                        assert(c == (i as int, b));
                    }
                    return Some((i, b));
                },
                None => {
                    assert(!holds_unreliable(self@, i as int, false, u));
                    assert(!holds_unreliable(self@, i as int, true, u));
                },
            }
            i = i + 1;
        }
        None
    }

    /// The one member on `host` still waiting for its unreliable address, if
    /// there is exactly one.
    fn sole_candidate(&self, host: Host) -> (r: Option<(usize, bool)>)
        requires
            self.wf(),
        ensures
            r matches Some(p) ==> unique_candidate(self@, host) == Some((p.0 as int, p.1)),
            r is None ==> unique_candidate(self@, host) is None,
    {
        let mut found: Option<(usize, bool)> = None;
        let mut several = false;
        let mut i: usize = 0;
        while i < self.sessions.len()
            invariant
                self.wf(),
                i <= self.sessions@.len(),
                self@.len() == self.sessions@.len(),
                found is None ==> forall|j: int, b: bool|
                    0 <= j < i ==> !is_candidate(self@, j, b, host),
                found matches Some(f) ==> f.0 < i && is_candidate(self@, f.0 as int, f.1, host),
                (found is Some && !several) ==> forall|j: int, b: bool|
                    0 <= j < i && is_candidate(self@, j, b, host) ==> j == found->Some_0.0 && b == found->Some_0.1,
                several ==> found is Some,
                several ==> exists|q: (int, bool)|
                    is_candidate(self@, q.0, q.1, host) && q != (found->Some_0.0 as int, found->Some_0.1),
            decreases self.sessions@.len() - i,
        {
            assert(self@[i as int] == self.sessions@[i as int]@);
            let s = &self.sessions[i];
            let mut k: usize = 0;
            while k < 2
                invariant
                    self.wf(),
                    i < self.sessions@.len(),
                    self@.len() == self.sessions@.len(),
                    self@[i as int] == self.sessions@[i as int]@,
                    s == self.sessions@[i as int],
                    k <= 2,
                    found is None ==> forall|j: int, b: bool|
                        (0 <= j < i || (j == i && (b == true ==> k >= 2) && (b == false ==> k
                            >= 1))) ==> !is_candidate(self@, j, b, host),
                    found matches Some(f) ==> (f.0 < i || (f.0 == i && (f.1 == true ==> k >= 2) && (
                    f.1 == false ==> k >= 1))) && is_candidate(self@, f.0 as int, f.1, host),
                    (found is Some && !several) ==> forall|j: int, b: bool|
                        (0 <= j < i || (j == i && (b == true ==> k >= 2) && (b == false ==> k
                            >= 1))) && is_candidate(self@, j, b, host) ==> j == found->Some_0.0 && b == found->Some_0.1,
                    several ==> found is Some,
                    several ==> exists|q: (int, bool)|
                        is_candidate(self@, q.0, q.1, host) && q != (
                            found->Some_0.0 as int,
                            found->Some_0.1,
                        ),
                decreases 2 - k,
            {
                let b = k == 1;
                let slot = if b {
                    &s.client_b
                } else {
                    &s.client_a
                };
                assert(*slot == member_at(self@, i as int, b));
                match slot {
                    Some(m) => {
                        if m.unreliable.is_none() && m.reliable.host == host {
                            assert(is_candidate(self@, i as int, b, host));
                            match found {
                                None => {
                                    found = Some((i, b));
                                },
                                Some(f) => {
                                    proof {
                                        let w = (i as int, b);
                                        assert(is_candidate(self@, w.0, w.1, host) && w != (
                                            f.0 as int,
                                            f.1,
                                        ));
                                    }
                                    several = true;
                                },
                            }
                        }
                    },
                    None => {},
                }
                k = k + 1;
            }
            i = i + 1;
        }
        if several {
            proof {
                if exists|p: (int, bool)|
                    is_candidate(self@, p.0, p.1, host) && forall|q: (int, bool)|
                        is_candidate(self@, q.0, q.1, host) ==> q == p {
                    let p = choose|p: (int, bool)|
                        is_candidate(self@, p.0, p.1, host) && forall|q: (int, bool)|
                            is_candidate(self@, q.0, q.1, host) ==> q == p;
                    let f = found->Some_0;
                    let q = choose|q: (int, bool)|
                        is_candidate(self@, q.0, q.1, host) && q != (f.0 as int, f.1);
                    assert(q == p);
                    assert((f.0 as int, f.1) == p);
                }
            }
            return None;
        }
        match found {
            None => {
                proof {
                    assert forall|p: (int, bool)| !is_candidate(self@, p.0, p.1, host) by {
                        if is_candidate(self@, p.0, p.1, host) {
                            assert(0 <= p.0 < self@.len());
                        }
                    }
                }
                None
            },
            Some(f) => {
                proof {
                    let fp = (f.0 as int, f.1);
                    assert forall|q: (int, bool)| is_candidate(self@, q.0, q.1, host) implies q
                        == fp by {
                        assert(0 <= q.0 < self@.len());
                    }
                    let p = choose|p: (int, bool)|
                        is_candidate(self@, p.0, p.1, host) && forall|q: (int, bool)|
                            is_candidate(self@, q.0, q.1, host) ==> q == p;
                    assert(is_candidate(self@, p.0, p.1, host));
                    assert(p == fp);
                }
                Some(f)
            },
        }
    }

    /// Index of the session named `id`.
    fn session_index(&self, id: &String) -> (r: Option<usize>)
        requires
            self.wf(),
        ensures
            r matches Some(i) ==> find_session(self@, id@) == Some(i as int),
            r is None ==> find_session(self@, id@) is None,
    {
        let mut i: usize = 0;
        while i < self.sessions.len()
            invariant
                self.wf(),
                i <= self.sessions@.len(),
                self@.len() == self.sessions@.len(),
                forall|j: int| 0 <= j < i ==> self@[j].id != id@,
            decreases self.sessions@.len() - i,
        {
            assert(self@[i as int] == self.sessions@[i as int]@);
            if self.sessions[i].id == *id {
                proof {
                    assert(self@[i as int].id == id@);
                    let c = choose|k: int| 0 <= k < self@.len() && self@[k].id == id@;
                    assert(self@[c].id == id@);
                    assert(c == i);
                }
                return Some(i);
            }
            i = i + 1;
        }
        None
    }
}

} // verus!
