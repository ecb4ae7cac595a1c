use vstd::prelude::*;

use crate::sessions::{
    add_spec, bind_spec, find_bound, find_member, find_session, holds_reliable, holds_unreliable,
    manager_wf, member_at, peer_unreliable_spec, relay_spec, remove_spec, with_slot, Member,
    PeerAddr, RelayView, SessionView,
};

verus! {

/// Two registries with the same identifiers at the same indices, the first
/// with unique identifiers, find each identifier at the same index.
proof fn lemma_same_ids_same_find<N>(s: Seq<SessionView<N>>, t: Seq<SessionView<N>>, x: Seq<char>)
    requires
        manager_wf(s),
        s.len() == t.len(),
        forall|k: int| 0 <= k < s.len() ==> #[trigger] t[k].id == s[k].id,
    ensures
        find_session(t, x) == find_session(s, x),
{
    if exists|i: int| 0 <= i < s.len() && s[i].id == x {
        let a = choose|i: int| 0 <= i < s.len() && s[i].id == x;
        assert(t[a].id == x);
        let b = choose|i: int| 0 <= i < t.len() && t[i].id == x;
        assert(s[b].id == t[b].id);
        assert(a == b);
    } else {
        assert forall|i: int| 0 <= i < t.len() implies t[i].id != x by {
            assert(t[i].id == s[i].id);
        }
    }
}

/// With unique reliable addresses, the member found for `addr` is the one at
/// `(i, b)` whenever that member has `addr`.
proof fn lemma_find_member_at<N>(s: Seq<SessionView<N>>, i: int, b: bool, addr: PeerAddr)
    requires
        manager_wf(s),
        holds_reliable(s, i, b, addr),
    ensures
        find_member(s, addr) == Some((i, b)),
{
    let w = (i, b);
    assert(holds_reliable(s, w.0, w.1, addr));
    let c = choose|p: (int, bool)| holds_reliable(s, p.0, p.1, addr);
    assert(member_at(s, c.0, c.1) is Some);
    assert(member_at(s, i, b) is Some);
}

/// With unique unreliable addresses, the member found for `u` is the one at
/// `(i, b)` whenever that member is bound to `u`.
proof fn lemma_find_bound_at<N>(s: Seq<SessionView<N>>, i: int, b: bool, u: PeerAddr)
    requires
        manager_wf(s),
        holds_unreliable(s, i, b, u),
    ensures
        find_bound(s, u) == Some((i, b)),
{
    let w = (i, b);
    assert(holds_unreliable(s, w.0, w.1, u));
    let c = choose|p: (int, bool)| holds_unreliable(s, p.0, p.1, u);
    assert(member_at(s, c.0, c.1) is Some);
    assert(member_at(s, i, b) is Some);
}

/// `add_client` keeps the identifiers, and adds no member but one with the
/// given address.
proof fn lemma_add_shape<N>(s: Seq<SessionView<N>>, id: Seq<char>, addr: PeerAddr, n: N)
    requires
        manager_wf(s),
    ensures
        ({
            let t = add_spec(s, id, addr, n).0;
            &&& t.len() == s.len()
            &&& forall|k: int| 0 <= k < s.len() ==> #[trigger] t[k].id == s[k].id
            &&& forall|k: int, c: bool| #[trigger]
                member_at(t, k, c) is Some ==> member_at(t, k, c) == member_at(s, k, c) || (
                member_at(t, k, c)->Some_0.reliable == addr && member_at(s, k, c) is None)
            &&& forall|k: int, c: bool| #[trigger]
                member_at(s, k, c) is Some ==> member_at(t, k, c) == member_at(s, k, c)
        }),
{
}

/// A third client is refused by a session that two distinct new clients
/// have joined, one after the other.
pub proof fn lemma_third_client_refused<N>(
    s: Seq<SessionView<N>>,
    id: Seq<char>,
    a: PeerAddr,
    b: PeerAddr,
    c: PeerAddr,
    na: N,
    nb: N,
    nc: N,
)
    requires
        manager_wf(s),
        a != b,
        find_member(s, a) is None,
        find_member(s, b) is None,
    ensures
        ({
            let s1 = add_spec(s, id, a, na).0;
            let s2 = add_spec(s1, id, b, nb).0;
            add_spec(s2, id, c, nc).1 == false
        }),
{
    let s1 = add_spec(s, id, a, na).0;
    lemma_add_shape(s, id, a, na);
    lemma_same_ids_same_find(s, s1, id);
    crate::sessions::lemma_add_wf(s, id, a, na);
    assert forall|p: (int, bool)| !holds_reliable(s1, p.0, p.1, b) by {
        if holds_reliable(s1, p.0, p.1, b) {
            if member_at(s1, p.0, p.1) == member_at(s, p.0, p.1) {
                assert(holds_reliable(s, p.0, p.1, b));
            }
        }
    }
    assert(find_member(s1, b) is None);
    let s2 = add_spec(s1, id, b, nb).0;
    lemma_add_shape(s1, id, b, nb);
    lemma_same_ids_same_find(s1, s2, id);
    match find_session(s, id) {
        None => {},
        Some(i) => {
            assert(0 <= i < s.len() && s[i].id == id);
            if s[i].a is None && s[i].b is None {
                assert(s2[i].a is Some && s2[i].b is Some);
            } else if s[i].a is None || s[i].b is None {
                assert(s1[i].a is Some && s1[i].b is Some);
                assert(s2 == s1);
            } else {
                assert(s2 == s);
            }
        },
    }
}

/// Once both members of a session are bound, to `ua` and `ub`, each one's
/// peer address is the other's.
pub proof fn lemma_bound_members_are_peers<N>(
    s: Seq<SessionView<N>>,
    i: int,
    ua: PeerAddr,
    ub: PeerAddr,
)
    requires
        manager_wf(s),
        holds_unreliable(s, i, false, ua),
        holds_unreliable(s, i, true, ub),
    ensures
        peer_unreliable_spec(s, ua) == Some(ub),
        peer_unreliable_spec(s, ub) == Some(ua),
{
    lemma_find_bound_at(s, i, false, ua);
    lemma_find_bound_at(s, i, true, ub);
}

/// After `map_udp_to_tcp(ua)` and then `map_udp_to_tcp(ub)`, when these
/// bound the two members of session `i`, each address is the other's peer.
pub proof fn lemma_bind_both_then_peers<N>(
    s: Seq<SessionView<N>>,
    i: int,
    ua: PeerAddr,
    ub: PeerAddr,
)
    requires
        manager_wf(s),
        holds_unreliable(bind_spec(bind_spec(s, ua), ub), i, false, ua),
        holds_unreliable(bind_spec(bind_spec(s, ua), ub), i, true, ub),
    ensures
        peer_unreliable_spec(bind_spec(bind_spec(s, ua), ub), ua) == Some(ub),
        peer_unreliable_spec(bind_spec(bind_spec(s, ua), ub), ub) == Some(ua),
{
    crate::sessions::lemma_bind_wf(s, ua);
    crate::sessions::lemma_bind_wf(bind_spec(s, ua), ub);
    lemma_bound_members_are_peers(bind_spec(bind_spec(s, ua), ub), i, ua, ub);
}

/// `map_udp_to_tcp` keeps the identifiers and the latches.
proof fn lemma_bind_shape<N>(s: Seq<SessionView<N>>, u: PeerAddr)
    ensures
        bind_spec(s, u).len() == s.len(),
        forall|k: int|
            0 <= k < s.len() ==> #[trigger] bind_spec(s, u)[k].id == s[k].id && bind_spec(s, u)[k].latched
                == s[k].latched,
{
}

/// Registry and actions after a run of datagrams from `us`, in order.
pub open spec fn relay_all<N>(s: Seq<SessionView<N>>, us: Seq<PeerAddr>) -> (
    Seq<SessionView<N>>,
    Seq<RelayView>,
)
    decreases us.len(),
{
    if us.len() == 0 {
        (s, Seq::empty())
    } else {
        let (t, rs) = relay_all(s, us.drop_last());
        let (t2, r) = relay_spec(t, us.last());
        (t2, rs.push(r))
    }
}

/// One datagram keeps the identifiers and every latch that is set; when it
/// brings `Connect`, it is for a session whose latch was clear and is now set.
proof fn lemma_relay_shape<N>(s: Seq<SessionView<N>>, u: PeerAddr)
    requires
        manager_wf(s),
    ensures
        ({
            let (t, r) = relay_spec(s, u);
            &&& t.len() == s.len()
            &&& forall|k: int| 0 <= k < s.len() ==> #[trigger] t[k].id == s[k].id
            &&& forall|k: int| 0 <= k < s.len() && s[k].latched ==> #[trigger] t[k].latched
            &&& r.connect is Some ==> exists|p: int|
                0 <= p < s.len() && #[trigger] t[p].id == r.connect->Some_0.0 && t[p].latched
                    && !s[p].latched
        }),
{
    let t1 = bind_spec(s, u);
    lemma_bind_shape(s, u);
    crate::sessions::lemma_bind_wf(s, u);
    let (t, r) = relay_spec(s, u);
    if r.connect is Some {
        let p = find_bound(t1, u)->Some_0;
        let w = choose|p: (int, bool)| holds_unreliable(t1, p.0, p.1, u);
        assert(holds_unreliable(t1, w.0, w.1, u));
        assert(0 <= p.0 < s.len());
        assert(t[p.0].id == r.connect->Some_0.0);
    }
}

/// Over any run of datagrams, `Connect` goes out at most once per session:
/// the first one sets the session's latch, and nothing but a member leaving
/// clears it.
pub proof fn lemma_connect_once_per_epoch<N>(s: Seq<SessionView<N>>, us: Seq<PeerAddr>)
    requires
        manager_wf(s),
    ensures
        ({
            let (t, rs) = relay_all(s, us);
            &&& manager_wf(t)
            &&& t.len() == s.len()
            &&& forall|k: int| 0 <= k < s.len() ==> #[trigger] t[k].id == s[k].id
            &&& forall|k: int| 0 <= k < s.len() && s[k].latched ==> #[trigger] t[k].latched
            &&& forall|i: int|
                0 <= i < rs.len() && (#[trigger] rs[i]).connect is Some ==> exists|k: int|
                    0 <= k < t.len() && t[k].id == rs[i].connect->Some_0.0 && t[k].latched
            &&& forall|i: int, j: int|
                0 <= i < j < rs.len() && (#[trigger] rs[i]).connect is Some && (
                #[trigger] rs[j]).connect is Some ==> rs[i].connect->Some_0.0 != rs[j].connect->Some_0.0
        }),
    decreases us.len(),
{
    if us.len() > 0 {
        let (t1, rs1) = relay_all(s, us.drop_last());
        lemma_connect_once_per_epoch(s, us.drop_last());
        let u = us.last();
        let (t2, r) = relay_spec(t1, u);
        lemma_relay_shape(t1, u);
        crate::sessions::lemma_relay_wf(t1, u);
        let rs = rs1.push(r);
        assert(relay_all(s, us) == (t2, rs));
        assert forall|i: int|
            0 <= i < rs.len() && (#[trigger] rs[i]).connect is Some implies exists|k: int|
                0 <= k < t2.len() && t2[k].id == rs[i].connect->Some_0.0 && t2[k].latched by {
            if i < rs1.len() {
                assert(rs[i] == rs1[i]);
                let k = choose|k: int|
                    0 <= k < t1.len() && t1[k].id == rs1[i].connect->Some_0.0 && t1[k].latched;
                assert(t2[k].id == t1[k].id);
            } else {
                assert(rs[i] == r);
                let p = choose|p: int|
                    0 <= p < t1.len() && t2[p].id == r.connect->Some_0.0 && t2[p].latched
                        && !t1[p].latched;
                assert(t2[p].id == r.connect->Some_0.0);
            }
        }
        assert forall|i: int, j: int|
            0 <= i < j < rs.len() && (#[trigger] rs[i]).connect is Some && (
            #[trigger] rs[j]).connect is Some implies rs[i].connect->Some_0.0
            != rs[j].connect->Some_0.0 by {
            if j < rs1.len() {
                assert(rs[i] == rs1[i]);
                assert(rs[j] == rs1[j]);
            } else {
                assert(rs[i] == rs1[i]);
                assert(rs[j] == r);
                let k = choose|k: int|
                    0 <= k < t1.len() && t1[k].id == rs1[i].connect->Some_0.0 && t1[k].latched;
                let p = choose|p: int|
                    0 <= p < t1.len() && t2[p].id == r.connect->Some_0.0 && t2[p].latched
                        && !t1[p].latched;
                assert(t2[p].id == t1[p].id);
                if rs[i].connect->Some_0.0 == rs[j].connect->Some_0.0 {
                    assert(t1[k].id == t1[p].id);
                    assert(k == p);
                }
            }
        }
    }
}

/// Removing the two members of a session, one after the other, destroys
/// it, and neither former unreliable address then has a peer.
pub proof fn lemma_last_leave_destroys<N>(s: Seq<SessionView<N>>, i: int, ma: Member<N>, mb: Member<N>)
    requires
        manager_wf(s),
        0 <= i < s.len(),
        s[i].a == Some(ma),
        s[i].b == Some(mb),
    ensures
        ({
            let s2 = remove_spec(remove_spec(s, ma.reliable), mb.reliable);
            &&& find_session(s2, s[i].id) is None
            &&& ma.unreliable matches Some(u) ==> peer_unreliable_spec(s2, u) is None
            &&& mb.unreliable matches Some(u) ==> peer_unreliable_spec(s2, u) is None
        }),
{
    assert(holds_reliable(s, i, false, ma.reliable));
    lemma_find_member_at(s, i, false, ma.reliable);
    let s1 = remove_spec(s, ma.reliable);
    let v = SessionView { latched: false, ..with_slot(s[i], false, None) };
    assert(s1 == s.update(i, v));
    crate::sessions::lemma_remove_wf(s, ma.reliable);
    assert(holds_reliable(s1, i, true, mb.reliable));
    lemma_find_member_at(s1, i, true, mb.reliable);
    let s2 = remove_spec(s1, mb.reliable);
    assert(s2 == s1.remove(i));
    assert forall|k: int| 0 <= k < s2.len() implies s2[k].id != s[i].id by {
        let k2 = if k < i { k } else { k + 1 };
        assert(s2[k] == s1[k2]);
        assert(s1[k2].id == s[k2].id);
    }
    assert(find_session(s2, s[i].id) is None);
    assert forall|k: int, c: bool| member_at(s2, k, c) is Some implies #[trigger] member_at(s2, k, c)
        == member_at(s, if k < i { k } else { k + 1 }, c) by {}
    if ma.unreliable is Some {
        let u = ma.unreliable->Some_0;
        assert forall|p: (int, bool)| !holds_unreliable(s2, p.0, p.1, u) by {
            if holds_unreliable(s2, p.0, p.1, u) {
                let k2 = if p.0 < i { p.0 } else { p.0 + 1 };
                assert(member_at(s, k2, p.1) is Some);
                assert(member_at(s, i, false) is Some);
            }
        }
    }
    if mb.unreliable is Some {
        let u = mb.unreliable->Some_0;
        assert forall|p: (int, bool)| !holds_unreliable(s2, p.0, p.1, u) by {
            if holds_unreliable(s2, p.0, p.1, u) {
                let k2 = if p.0 < i { p.0 } else { p.0 + 1 };
                assert(member_at(s, k2, p.1) is Some);
                assert(member_at(s, i, true) is Some);
            }
        }
    }
}

} // verus!
