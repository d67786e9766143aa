use vstd::prelude::*;
use crate::error::AuthError;
use crate::util::contains_u64;

verus! {

/// A user shown as currently typing in a room.
#[derive(Clone, Debug)]
pub struct TypingUser {
    pub user_id: u64,
    pub username: String,
}

/// One live, authenticated connection: its user and the rooms it is
/// subscribed to.
#[derive(Clone, Debug)]
pub struct ClientInfo {
    pub user_id: u64,
    pub username: String,
    pub rooms: Vec<u64>,
}

pub open spec fn has_client(clients: Seq<ClientInfo>, user_id: u64) -> bool {
    exists|i: int| 0 <= i < clients.len() && (#[trigger] clients[i]).user_id == user_id
}

/// The client of a user; determined when user ids are unique.
pub open spec fn client_by_id(clients: Seq<ClientInfo>, user_id: u64) -> ClientInfo {
    clients[choose|i: int| 0 <= i < clients.len() && (#[trigger] clients[i]).user_id == user_id]
}

/// The user's connection is currently subscribed to the room.
pub open spec fn subscribed(clients: Seq<ClientInfo>, user_id: u64, room_id: u64) -> bool {
    exists|i: int|
        0 <= i < clients.len() && (#[trigger] clients[i]).user_id == user_id
            && clients[i].rooms@.contains(room_id)
}

pub open spec fn typing_has(typing: Seq<(u64, u64)>, room_id: u64, user_id: u64) -> bool {
    exists|i: int| 0 <= i < typing.len() && #[trigger] typing[i] == (room_id, user_id)
}

/// The user ids subscribed to a room, in connection order.
pub open spec fn subscribers_spec(clients: Seq<ClientInfo>, room_id: u64) -> Seq<u64>
    decreases clients.len(),
{
    if clients.len() == 0 {
        Seq::empty()
    } else {
        let rest = subscribers_spec(clients.drop_first(), room_id);
        if clients[0].rooms@.contains(room_id) {
            seq![clients[0].user_id] + rest
        } else {
            rest
        }
    }
}

/// The user ids typing in a room whose connection is still present, in
/// typing order.
pub open spec fn typing_ids_spec(
    typing: Seq<(u64, u64)>,
    clients: Seq<ClientInfo>,
    room_id: u64,
) -> Seq<u64>
    decreases typing.len(),
{
    if typing.len() == 0 {
        Seq::empty()
    } else {
        let rest = typing_ids_spec(typing.drop_first(), clients, room_id);
        if typing[0].0 == room_id && has_client(clients, typing[0].1) {
            seq![typing[0].1] + rest
        } else {
            rest
        }
    }
}

/// The in-memory index of live connections, their room subscriptions and
/// the per-room typing sets. Broadcast targeting reads this index; access
/// control always goes back to persisted memberships.
pub struct ConnectionManager {
    pub clients: Vec<ClientInfo>,
    pub typing: Vec<(u64, u64)>,
}

impl ConnectionManager {
    /// One client per user, no room listed twice on one client, no typing
    /// pair listed twice.
    pub open spec fn wf(&self) -> bool {
        &&& forall|i: int, j: int|
            0 <= i < j < self.clients@.len() ==> (#[trigger] self.clients@[i]).user_id != (
            #[trigger] self.clients@[j]).user_id
        &&& forall|i: int, a: int, b: int|
            0 <= i < self.clients@.len() && 0 <= a < b < self.clients@[i].rooms@.len() ==> (
            #[trigger] self.clients@[i].rooms@[a]) != (#[trigger] self.clients@[i].rooms@[b])
        &&& forall|i: int, j: int|
            0 <= i < j < self.typing@.len() ==> #[trigger] self.typing@[i] != (
            #[trigger] self.typing@[j])
    }

    pub fn new() -> (cm: ConnectionManager)
        ensures
            cm.wf(),
            cm.clients@ =~= Seq::<ClientInfo>::empty(),
            cm.typing@ =~= Seq::<(u64, u64)>::empty(),
    {
        ConnectionManager { clients: Vec::new(), typing: Vec::new() }
    }

    fn client_index(&self, user_id: u64) -> (r: Option<usize>)
        ensures
            match r {
                Some(i) => i < self.clients@.len() && self.clients@[i as int].user_id == user_id,
                None => !has_client(self.clients@, user_id),
            },
    {
        let mut i: usize = 0;
        while i < self.clients.len()
            invariant
                i <= self.clients@.len(),
                forall|k: int| 0 <= k < i ==> (#[trigger] self.clients@[k]).user_id != user_id,
            decreases self.clients@.len() - i,
        {
            if self.clients[i].user_id == user_id {
                return Some(i);
            }
            i = i + 1;
        }
        None
    }

    /// Registers an authenticated connection with no subscriptions yet; a
    /// reconnecting user replaces their old entry.
    pub fn add_client(&mut self, user_id: u64, username: &str)
        requires
            old(self).wf(),
        ensures
            final(self).wf(),
            final(self).typing == old(self).typing,
            has_client(final(self).clients@, user_id),
            client_by_id(final(self).clients@, user_id).username@ == username@,
            client_by_id(final(self).clients@, user_id).rooms@ =~= Seq::<u64>::empty(),
            forall|u: u64|
                u != user_id ==> (has_client(final(self).clients@, u) == has_client(
                    old(self).clients@,
                    u,
                )),
    {
        let ghost pre = self.clients@;
        match self.client_index(user_id) {
            Some(i) => {
                self.clients.remove(i);
                proof {
                    assert forall|k: int|
                        0 <= k < self.clients@.len() implies (#[trigger] self.clients@[k]).user_id
                        != user_id by {
                        if k < i {
                            assert(self.clients@[k] == pre[k]);
                        } else {
                            assert(self.clients@[k] == pre[k + 1]);
                        }
                    }
                }
            },
            None => {},
        }
        let ghost mid = self.clients@;
        proof {
            assert(!has_client(mid, user_id));
            assert forall|a: int, b: int|
                0 <= a < b < mid.len() implies (#[trigger] mid[a]).user_id != (
            #[trigger] mid[b]).user_id by {
                if has_client(pre, user_id) {
                    let i = choose|i: int|
                        0 <= i < pre.len() && (#[trigger] pre[i]).user_id == user_id;
                } else {
                    assert(mid[a] == pre[a] && mid[b] == pre[b]);
                }
            }
            assert forall|i: int, a: int, b: int|
                0 <= i < mid.len() && 0 <= a < b < mid[i].rooms@.len() implies (
            #[trigger] mid[i].rooms@[a]) != (#[trigger] mid[i].rooms@[b]) by {
                assert(exists|j: int| 0 <= j < pre.len() && #[trigger] pre[j] == mid[i]);
            }
        }
        let c = ClientInfo { user_id, username: username.to_owned(), rooms: Vec::new() };
        self.clients.push(c);
        proof {
            let fin = self.clients@;
            assert(fin[fin.len() - 1].user_id == user_id);
            assert(has_client(fin, user_id));
            let w = choose|w: int| 0 <= w < fin.len() && (#[trigger] fin[w]).user_id == user_id;
            assert forall|a: int, b: int|
                0 <= a < b < fin.len() implies (#[trigger] fin[a]).user_id != (
            #[trigger] fin[b]).user_id by {
                if b < fin.len() - 1 {
                    assert(fin[a] == mid[a] && fin[b] == mid[b]);
                } else {
                    assert(fin[a] == mid[a]);
                }
            }
            assert(w == fin.len() - 1);
            assert forall|u: u64|
                u != user_id implies (has_client(fin, u) == has_client(pre, u)) by {
                if has_client(fin, u) {
                    let k = choose|k: int|
                        0 <= k < fin.len() && (#[trigger] fin[k]).user_id == u;
                    assert(fin[k] == mid[k]);
                    assert(has_client(mid, u));
                }
                if has_client(mid, u) {
                    let k = choose|k: int|
                        0 <= k < mid.len() && (#[trigger] mid[k]).user_id == u;
                    assert(fin[k] == mid[k]);
                    assert(has_client(fin, u));
                }
                if has_client(pre, u) && !has_client(mid, u) {
                    let k = choose|k: int|
                        0 <= k < pre.len() && (#[trigger] pre[k]).user_id == u;
                    if has_client(pre, user_id) {
                        let i = choose|i: int|
                            0 <= i < pre.len() && (#[trigger] pre[i]).user_id == user_id;
                        if k < i {
                            assert(mid[k].user_id == u);
                        } else {
                            assert(k != i);
                            assert(mid[k - 1].user_id == u);
                        }
                        assert(has_client(mid, u));
                    }
                }
                if has_client(mid, u) && !has_client(pre, u) {
                    let k = choose|k: int|
                        0 <= k < mid.len() && (#[trigger] mid[k]).user_id == u;
                    if has_client(pre, user_id) {
                        let i = choose|i: int|
                            0 <= i < pre.len() && (#[trigger] pre[i]).user_id == user_id;
                        if k < i {
                            assert(pre[k].user_id == u);
                        } else {
                            assert(pre[k + 1].user_id == u);
                        }
                        assert(has_client(pre, u));
                    }
                }
            }
            assert forall|i: int, a: int, b: int|
                0 <= i < fin.len() && 0 <= a < b < fin[i].rooms@.len() implies (
            #[trigger] fin[i].rooms@[a]) != (#[trigger] fin[i].rooms@[b]) by {
                if i < fin.len() - 1 {
                    assert(fin[i] == mid[i]);
                }
            }
        }
    }

    /// Deregisters a connection and purges the user from every typing set.
    pub fn remove_client(&mut self, user_id: u64)
        requires
            old(self).wf(),
        ensures
            final(self).wf(),
            !has_client(final(self).clients@, user_id),
            forall|u: u64|
                u != user_id ==> (has_client(final(self).clients@, u) == has_client(
                    old(self).clients@,
                    u,
                )),
            forall|u: u64, rm: u64|
                u != user_id ==> (subscribed(final(self).clients@, u, rm) == subscribed(
                    old(self).clients@,
                    u,
                    rm,
                )),
            forall|k: int|
                0 <= k < final(self).typing@.len() ==> old(self).typing@.contains(
                    #[trigger] final(self).typing@[k],
                ) && final(self).typing@[k].1 != user_id,
            forall|k: int|
                0 <= k < old(self).typing@.len() && (#[trigger] old(self).typing@[k]).1 != user_id
                    ==> final(self).typing@.contains(old(self).typing@[k]),
    {
        let ghost pre = self.clients@;
        match self.client_index(user_id) {
            Some(i) => {
                self.clients.remove(i);
                proof {
                    assert forall|k: int|
                        0 <= k < self.clients@.len() implies (#[trigger] self.clients@[k]).user_id
                        != user_id by {
                        if k < i {
                            assert(self.clients@[k] == pre[k]);
                        } else {
                            assert(self.clients@[k] == pre[k + 1]);
                        }
                    }
                    assert forall|a: int, b: int|
                        0 <= a < b < self.clients@.len() implies (
                    #[trigger] self.clients@[a]).user_id != (#[trigger] self.clients@[b]).user_id
                        && (forall|x: int, y: int|
                        0 <= x < y < (#[trigger] self.clients@[a]).rooms@.len()
                            ==> self.clients@[a].rooms@[x] != self.clients@[a].rooms@[y]) by {
                        let pa = if a < i {
                            a
                        } else {
                            a + 1
                        };
                        let pb = if b < i {
                            b
                        } else {
                            b + 1
                        };
                        assert(self.clients@[a] == pre[pa] && self.clients@[b] == pre[pb]);
                    }
                    assert forall|c: int, x: int, y: int|
                        0 <= c < self.clients@.len() && 0 <= x < y
                            < self.clients@[c].rooms@.len() implies (
                    #[trigger] self.clients@[c].rooms@[x]) != (
                    #[trigger] self.clients@[c].rooms@[y]) by {
                        let pc = if c < i {
                            c
                        } else {
                            c + 1
                        };
                        assert(self.clients@[c] == pre[pc]);
                    }
                    assert forall|u: u64|
                        u != user_id implies (has_client(self.clients@, u) == has_client(pre, u)) by {
                        if has_client(self.clients@, u) {
                            let k = choose|k: int|
                                0 <= k < self.clients@.len() && (
                                #[trigger] self.clients@[k]).user_id == u;
                            let pk = if k < i {
                                k
                            } else {
                                k + 1
                            };
                            assert(pre[pk].user_id == u);
                        }
                        if has_client(pre, u) {
                            let k = choose|k: int|
                                0 <= k < pre.len() && (#[trigger] pre[k]).user_id == u;
                            if k < i {
                                assert(self.clients@[k].user_id == u);
                            } else {
                                assert(k != i);
                                assert(self.clients@[k - 1].user_id == u);
                            }
                        }
                    }
                    assert forall|u: u64, rm: u64|
                        u != user_id implies (subscribed(self.clients@, u, rm) == subscribed(
                        pre,
                        u,
                        rm,
                    )) by {
                        if subscribed(self.clients@, u, rm) {
                            let k = choose|k: int|
                                0 <= k < self.clients@.len() && (
                                #[trigger] self.clients@[k]).user_id == u
                                    && self.clients@[k].rooms@.contains(rm);
                            let pk = if k < i {
                                k
                            } else {
                                k + 1
                            };
                            assert(pre[pk] == self.clients@[k]);
                            assert(subscribed(pre, u, rm));
                        }
                        if subscribed(pre, u, rm) {
                            let k = choose|k: int|
                                0 <= k < pre.len() && (#[trigger] pre[k]).user_id == u
                                    && pre[k].rooms@.contains(rm);
                            assert(k != i);
                            if k < i {
                                assert(self.clients@[k] == pre[k]);
                            } else {
                                assert(self.clients@[k - 1] == pre[k]);
                            }
                            assert(subscribed(self.clients@, u, rm));
                        }
                    }
                }
            },
            None => {},
        }
        let ghost pre_t = self.typing@;
        let mut kept: Vec<(u64, u64)> = Vec::new();
        let mut i: usize = 0;
        while i < self.typing.len()
            invariant
                i <= self.typing@.len(),
                self.typing@ == pre_t,
                forall|a: int, b: int| 0 <= a < b < pre_t.len() ==> #[trigger] pre_t[a] != (
                #[trigger] pre_t[b]),
                forall|k: int|
                    0 <= k < kept@.len() ==> (exists|j: int|
                        0 <= j < i && #[trigger] kept@[k] == #[trigger] pre_t[j]) && (
                    #[trigger] kept@[k]).1 != user_id,
                forall|k: int|
                    0 <= k < i && (#[trigger] pre_t[k]).1 != user_id ==> kept@.contains(pre_t[k]),
                forall|a: int, b: int| 0 <= a < b < kept@.len() ==> #[trigger] kept@[a] != (
                #[trigger] kept@[b]),
            decreases self.typing@.len() - i,
        {
            let pair = self.typing[i];
            if pair.1 != user_id {
                let ghost prev = kept@;
                kept.push(pair);
                proof {
                    assert(kept@[kept@.len() - 1] == pre_t[i as int]);
                    assert(forall|k: int| 0 <= k < prev.len() ==> kept@[k] == #[trigger] prev[k]);
                    assert forall|a: int, b: int|
                        0 <= a < b < kept@.len() implies #[trigger] kept@[a] != (
                    #[trigger] kept@[b]) by {
                        if b == kept@.len() - 1 {
                            assert(kept@[a] == prev[a]);
                            assert(exists|j: int|
                                0 <= j < i && #[trigger] kept@[a] == #[trigger] pre_t[j]);
                            let j = choose|j: int|
                                0 <= j < i && #[trigger] kept@[a] == #[trigger] pre_t[j];
                            assert(pre_t[j] != pre_t[i as int]);
                        }
                    }
                    assert forall|k: int|
                        0 <= k < kept@.len() implies (exists|j: int|
                        0 <= j < i + 1 && #[trigger] kept@[k] == #[trigger] pre_t[j]) by {
                        if k < prev.len() {
                            let j = choose|j: int|
                                0 <= j < i && #[trigger] kept@[k] == #[trigger] pre_t[j];
                            assert(0 <= j < i + 1 && kept@[k] == pre_t[j]);
                        } else {
                            assert(kept@[k] == pre_t[i as int]);
                        }
                    }
                }
            }
            i = i + 1;
        }
        proof {
            assert forall|k: int|
                0 <= k < kept@.len() implies pre_t.contains(#[trigger] kept@[k]) by {
                let j = choose|j: int|
                    0 <= j < i && #[trigger] kept@[k] == #[trigger] pre_t[j];
                assert(pre_t[j] == kept@[k]);
            }
        }
        self.typing = kept;
    }

    /// Subscribes the connection to a room; fails when the user has no
    /// registered connection.
    pub fn join_room(&mut self, user_id: u64, room_id: u64) -> (r: Result<(), AuthError>)
        requires
            old(self).wf(),
        ensures
            final(self).wf(),
            final(self).typing == old(self).typing,
            r is Ok <==> has_client(old(self).clients@, user_id),
            r matches Err(e) ==> e is InvalidInput && *final(self) == *old(self),
            r is Ok ==> subscribed(final(self).clients@, user_id, room_id),
            forall|u: u64, rm: u64|
                u != user_id ==> (subscribed(final(self).clients@, u, rm) == subscribed(
                    old(self).clients@,
                    u,
                    rm,
                )),
            forall|rm: u64|
                subscribed(old(self).clients@, user_id, rm) ==> subscribed(
                    final(self).clients@,
                    user_id,
                    rm,
                ),
            forall|u: u64|
                has_client(final(self).clients@, u) == has_client(old(self).clients@, u),
    {
        let ghost pre = self.clients@;
        match self.client_index(user_id) {
            Some(i) => {
                if contains_u64(&self.clients[i].rooms, room_id) {
                    proof {
                        assert(subscribed(self.clients@, user_id, room_id));
                    }
                    return Ok(());
                }
                let mut c = self.clients.remove(i);
                c.rooms.push(room_id);
                self.clients.insert(i, c);
                proof {
                    assert(self.clients@ =~= pre.update(i as int, self.clients@[i as int]));
                    assert(self.clients@[i as int].user_id == user_id);
                    assert(self.clients@[i as int].rooms@ == pre[i as int].rooms@.push(room_id));
                    assert(self.clients@[i as int].rooms@.contains(room_id)) by {
                        assert(self.clients@[i as int].rooms@.last() == room_id);
                    }
                    assert(subscribed(self.clients@, user_id, room_id));
                    assert forall|a: int, b: int|
                        0 <= a < b < self.clients@.len() implies (
                    #[trigger] self.clients@[a]).user_id != (#[trigger] self.clients@[b]).user_id by {
                        assert(self.clients@[a].user_id == pre[a].user_id
                            && self.clients@[b].user_id == pre[b].user_id);
                    }
                    assert forall|c2: int, x: int, y: int|
                        0 <= c2 < self.clients@.len() && 0 <= x < y
                            < self.clients@[c2].rooms@.len() implies (
                    #[trigger] self.clients@[c2].rooms@[x]) != (
                    #[trigger] self.clients@[c2].rooms@[y]) by {
                        if c2 != i {
                            assert(self.clients@[c2] == pre[c2]);
                        } else {
                            if y < self.clients@[c2].rooms@.len() - 1 {
                                assert(self.clients@[c2].rooms@[x] == pre[i as int].rooms@[x]
                                    && self.clients@[c2].rooms@[y] == pre[i as int].rooms@[y]);
                            } else {
                                assert(self.clients@[c2].rooms@[x] == pre[i as int].rooms@[x]);
                                assert(self.clients@[c2].rooms@[y] == room_id);
                                assert(!pre[i as int].rooms@.contains(room_id));
                            }
                        }
                    }
                    assert forall|u: u64, rm: u64|
                        u != user_id implies (subscribed(self.clients@, u, rm) == subscribed(
                        pre,
                        u,
                        rm,
                    )) by {
                        if subscribed(self.clients@, u, rm) {
                            let k = choose|k: int|
                                0 <= k < self.clients@.len() && (
                                #[trigger] self.clients@[k]).user_id == u
                                    && self.clients@[k].rooms@.contains(rm);
                            assert(k != i);
                            assert(pre[k] == self.clients@[k]);
                            assert(subscribed(pre, u, rm));
                        }
                        if subscribed(pre, u, rm) {
                            let k = choose|k: int|
                                0 <= k < pre.len() && (#[trigger] pre[k]).user_id == u
                                    && pre[k].rooms@.contains(rm);
                            assert(k != i);
                            assert(self.clients@[k] == pre[k]);
                            assert(subscribed(self.clients@, u, rm));
                        }
                    }
                    assert forall|u: u64|
                        has_client(self.clients@, u) == has_client(pre, u) by {
                        if has_client(self.clients@, u) {
                            let k = choose|k: int|
                                0 <= k < self.clients@.len() && (
                                #[trigger] self.clients@[k]).user_id == u;
                            assert(pre[k].user_id == u);
                        }
                        if has_client(pre, u) {
                            let k = choose|k: int|
                                0 <= k < pre.len() && (#[trigger] pre[k]).user_id == u;
                            assert(self.clients@[k].user_id == u);
                        }
                    }
                    assert forall|rm: u64|
                        subscribed(pre, user_id, rm) implies subscribed(
                        self.clients@,
                        user_id,
                        rm,
                    ) by {
                        let w = choose|w: int|
                            0 <= w < pre.len() && (#[trigger] pre[w]).user_id == user_id
                                && pre[w].rooms@.contains(rm);
                        if w != i {
                            assert(pre[i as int].user_id == user_id);
                        } else {
                            let j = choose|j: int|
                                0 <= j < pre[w].rooms@.len() && pre[w].rooms@[j] == rm;
                            assert(self.clients@[i as int].rooms@[j] == rm);
                            assert(self.clients@[i as int].rooms@.contains(rm));
                        }
                    }
                }
                Ok(())
            },
            None => Err(AuthError::InvalidInput(String::from_str("Client not found"))),
        }
    }

    /// Unsubscribes the connection from a room and clears the user's
    /// typing state there; fails when the user has no registered
    /// connection.
    pub fn leave_room(&mut self, user_id: u64, room_id: u64) -> (r: Result<(), AuthError>)
        requires
            old(self).wf(),
        ensures
            final(self).wf(),
            r is Ok <==> has_client(old(self).clients@, user_id),
            r matches Err(e) ==> e is InvalidInput && *final(self) == *old(self),
            r is Ok ==> !subscribed(final(self).clients@, user_id, room_id) && !typing_has(
                final(self).typing@,
                room_id,
                user_id,
            ),
            forall|u: u64|
                has_client(final(self).clients@, u) == has_client(old(self).clients@, u),
            forall|rm: u64|
                rm != room_id ==> (subscribed(final(self).clients@, user_id, rm) == subscribed(
                    old(self).clients@,
                    user_id,
                    rm,
                )),
            forall|u: u64, rm: u64|
                u != user_id ==> (subscribed(final(self).clients@, u, rm) == subscribed(
                    old(self).clients@,
                    u,
                    rm,
                )),
            forall|p: (u64, u64)|
                p != (room_id, user_id) ==> (final(self).typing@.contains(p) == old(
                    self,
                ).typing@.contains(p)),
    {
        let ghost pre = self.clients@;
        match self.client_index(user_id) {
            Some(i) => {
                let mut c = self.clients.remove(i);
                let ghost c_rooms = c.rooms@;
                let ghost mut removed_at: Option<int> = None;
                match crate::util::index_of_u64(&c.rooms, room_id) {
                    Some(k) => {
                        proof {
                            removed_at = Some(k as int);
                        }
                        c.rooms.remove(k);
                        proof {
                            assert forall|x: int|
                                0 <= x < c.rooms@.len() implies #[trigger] c.rooms@[x] != room_id by {
                                if x < k {
                                    assert(c.rooms@[x] == c_rooms[x]);
                                } else {
                                    assert(c.rooms@[x] == c_rooms[x + 1]);
                                    assert(forall|a: int, b: int|
                                        0 <= a < b < c_rooms.len() ==> #[trigger] c_rooms[a]
                                            != #[trigger] c_rooms[b]);
                                }
                            }
                            assert forall|x: int, y: int|
                                0 <= x < y < c.rooms@.len() implies #[trigger] c.rooms@[x] != (
                            #[trigger] c.rooms@[y]) by {
                                let px = if x < k {
                                    x
                                } else {
                                    x + 1
                                };
                                let py = if y < k {
                                    y
                                } else {
                                    y + 1
                                };
                                assert(c.rooms@[x] == c_rooms[px] && c.rooms@[y] == c_rooms[py]);
                            }
                        }
                    },
                    None => {},
                }
                self.clients.insert(i, c);
                proof {
                    assert(self.clients@ =~= pre.update(i as int, self.clients@[i as int]));
                    assert(self.clients@[i as int].user_id == user_id);
                    assert(!self.clients@[i as int].rooms@.contains(room_id));
                    assert forall|a: int, b: int|
                        0 <= a < b < self.clients@.len() implies (
                    #[trigger] self.clients@[a]).user_id != (#[trigger] self.clients@[b]).user_id by {
                        assert(self.clients@[a].user_id == pre[a].user_id
                            && self.clients@[b].user_id == pre[b].user_id);
                    }
                    assert forall|c2: int, x: int, y: int|
                        0 <= c2 < self.clients@.len() && 0 <= x < y
                            < self.clients@[c2].rooms@.len() implies (
                    #[trigger] self.clients@[c2].rooms@[x]) != (
                    #[trigger] self.clients@[c2].rooms@[y]) by {
                        if c2 != i {
                            assert(self.clients@[c2] == pre[c2]);
                        }
                    }
                    assert(!subscribed(self.clients@, user_id, room_id)) by {
                        if subscribed(self.clients@, user_id, room_id) {
                            let w = choose|w: int|
                                0 <= w < self.clients@.len() && (
                                #[trigger] self.clients@[w]).user_id == user_id
                                    && self.clients@[w].rooms@.contains(room_id);
                            if w != i {
                                assert(self.clients@[w].user_id == pre[w].user_id);
                                assert(pre[i as int].user_id == user_id);
                            }
                        }
                    }
                    assert forall|u: u64|
                        has_client(self.clients@, u) == has_client(pre, u) by {
                        if has_client(self.clients@, u) {
                            let k = choose|k: int|
                                0 <= k < self.clients@.len() && (
                                #[trigger] self.clients@[k]).user_id == u;
                            assert(pre[k].user_id == u);
                        }
                        if has_client(pre, u) {
                            let k = choose|k: int|
                                0 <= k < pre.len() && (#[trigger] pre[k]).user_id == u;
                            assert(self.clients@[k].user_id == u);
                        }
                    }
                    assert forall|rm: u64|
                        rm != room_id implies (subscribed(self.clients@, user_id, rm)
                        == subscribed(pre, user_id, rm)) by {
                        if subscribed(self.clients@, user_id, rm) {
                            let w = choose|w: int|
                                0 <= w < self.clients@.len() && (
                                #[trigger] self.clients@[w]).user_id == user_id
                                    && self.clients@[w].rooms@.contains(rm);
                            if w != i {
                                assert(pre[w] == self.clients@[w]);
                            } else {
                                let x = choose|x: int|
                                    0 <= x < self.clients@[w].rooms@.len()
                                        && self.clients@[w].rooms@[x] == rm;
                                match removed_at {
                                    Some(k) => {
                                        let px = if x < k {
                                            x
                                        } else {
                                            x + 1
                                        };
                                        assert(pre[i as int].rooms@[px] == rm);
                                    },
                                    None => {
                                        assert(pre[i as int].rooms@[x] == rm);
                                    },
                                }
                                assert(pre[i as int].rooms@.contains(rm));
                            }
                            assert(subscribed(pre, user_id, rm));
                        }
                        if subscribed(pre, user_id, rm) {
                            let w = choose|w: int|
                                0 <= w < pre.len() && (#[trigger] pre[w]).user_id == user_id
                                    && pre[w].rooms@.contains(rm);
                            if w != i {
                                assert(self.clients@[w] == pre[w]);
                            } else {
                                let x = choose|x: int|
                                    0 <= x < pre[w].rooms@.len() && pre[w].rooms@[x] == rm;
                                assert(c_rooms[x] == rm);
                                match removed_at {
                                    Some(k) => {
                                        assert(x != k);
                                        let nx = if x < k {
                                            x
                                        } else {
                                            x - 1
                                        };
                                        assert(self.clients@[i as int].rooms@[nx] == rm);
                                    },
                                    None => {
                                        assert(self.clients@[i as int].rooms@[x] == rm);
                                    },
                                }
                                assert(self.clients@[i as int].rooms@.contains(rm));
                            }
                            assert(subscribed(self.clients@, user_id, rm));
                        }
                    }
                    assert forall|u: u64, rm: u64|
                        u != user_id implies (subscribed(self.clients@, u, rm) == subscribed(
                        pre,
                        u,
                        rm,
                    )) by {
                        if subscribed(self.clients@, u, rm) {
                            let w = choose|w: int|
                                0 <= w < self.clients@.len() && (
                                #[trigger] self.clients@[w]).user_id == u
                                    && self.clients@[w].rooms@.contains(rm);
                            assert(w != i);
                            assert(pre[w] == self.clients@[w]);
                            assert(subscribed(pre, u, rm));
                        }
                        if subscribed(pre, u, rm) {
                            let w = choose|w: int|
                                0 <= w < pre.len() && (#[trigger] pre[w]).user_id == u
                                    && pre[w].rooms@.contains(rm);
                            assert(w != i) by {
                                assert(pre[i as int].user_id == user_id);
                            }
                            assert(self.clients@[w] == pre[w]);
                            assert(subscribed(self.clients@, u, rm));
                        }
                    }
                }
                // clear the typing pair
                let ghost cur = self.clients@;
                let ghost pre_t = self.typing@;
                let mut j: usize = 0;
                while j < self.typing.len()
                    invariant
                        j <= self.typing@.len(),
                        self.clients@ == cur,
                        pre == old(self).clients@,
                        pre_t == old(self).typing@,
                        has_client(pre, user_id),
                        forall|a: int, b: int|
                            0 <= a < b < cur.len() ==> (#[trigger] cur[a]).user_id != (
                            #[trigger] cur[b]).user_id,
                        forall|c2: int, x: int, y: int|
                            0 <= c2 < cur.len() && 0 <= x < y < cur[c2].rooms@.len() ==> (
                            #[trigger] cur[c2].rooms@[x]) != (#[trigger] cur[c2].rooms@[y]),
                        !subscribed(cur, user_id, room_id),
                        forall|u: u64| has_client(cur, u) == has_client(pre, u),
                        forall|rm: u64|
                            rm != room_id ==> (subscribed(cur, user_id, rm) == subscribed(
                                pre,
                                user_id,
                                rm,
                            )),
                        forall|u: u64, rm: u64|
                            u != user_id ==> (subscribed(cur, u, rm) == subscribed(pre, u, rm)),
                        self.typing@ == pre_t,
                        forall|a: int, b: int|
                            0 <= a < b < pre_t.len() ==> #[trigger] pre_t[a] != (
                            #[trigger] pre_t[b]),
                        forall|k: int|
                            0 <= k < j ==> #[trigger] pre_t[k] != (room_id, user_id),
                    decreases self.typing@.len() - j,
                {
                    if self.typing[j].0 == room_id && self.typing[j].1 == user_id {
                        self.typing.remove(j);
                        proof {
                            assert forall|k: int|
                                0 <= k < self.typing@.len() implies #[trigger] self.typing@[k] != (
                            room_id, user_id) by {
                                if k < j {
                                    assert(self.typing@[k] == pre_t[k]);
                                } else {
                                    assert(self.typing@[k] == pre_t[k + 1]);
                                }
                            }
                            assert forall|a: int, b: int|
                                0 <= a < b < self.typing@.len() implies #[trigger] self.typing@[a]
                                != (#[trigger] self.typing@[b]) by {
                                let pa = if a < j {
                                    a
                                } else {
                                    a + 1
                                };
                                let pb = if b < j {
                                    b
                                } else {
                                    b + 1
                                };
                                assert(self.typing@[a] == pre_t[pa] && self.typing@[b]
                                    == pre_t[pb]);
                            }
                            assert forall|p: (u64, u64)|
                                p != (room_id, user_id) implies (self.typing@.contains(p)
                                == pre_t.contains(p)) by {
                                if self.typing@.contains(p) {
                                    let k2 = choose|k2: int|
                                        0 <= k2 < self.typing@.len() && #[trigger] self.typing@[k2]
                                            == p;
                                    let pk = if k2 < j {
                                        k2
                                    } else {
                                        k2 + 1
                                    };
                                    assert(pre_t[pk] == p);
                                }
                                if pre_t.contains(p) {
                                    let k2 = choose|k2: int|
                                        0 <= k2 < pre_t.len() && #[trigger] pre_t[k2] == p;
                                    if k2 < j {
                                        assert(self.typing@[k2] == p);
                                    } else {
                                        assert(k2 != j);
                                        assert(self.typing@[k2 - 1] == p);
                                    }
                                }
                            }
                        }
                        return Ok(());
                    }
                    j = j + 1;
                }
                proof {
                    assert(!typing_has(self.typing@, room_id, user_id));
                }
                Ok(())
            },
            None => Err(AuthError::InvalidInput(String::from_str("Client not found"))),
        }
    }

    /// Bulk re-subscribes a freshly authenticated connection to its
    /// persisted rooms.
    pub fn restore_user_rooms(&mut self, user_id: u64, room_ids: &Vec<u64>)
        requires
            old(self).wf(),
        ensures
            final(self).wf(),
            final(self).typing == old(self).typing,
            !has_client(old(self).clients@, user_id) ==> *final(self) == *old(self),
            has_client(old(self).clients@, user_id) ==> forall|k: int|
                0 <= k < room_ids@.len() ==> subscribed(
                    final(self).clients@,
                    user_id,
                    #[trigger] room_ids@[k],
                ),
            forall|rm: u64|
                subscribed(old(self).clients@, user_id, rm) ==> subscribed(
                    final(self).clients@,
                    user_id,
                    rm,
                ),
            forall|u: u64|
                has_client(final(self).clients@, u) == has_client(old(self).clients@, u),
            forall|u: u64, rm: u64|
                u != user_id ==> (subscribed(final(self).clients@, u, rm) == subscribed(
                    old(self).clients@,
                    u,
                    rm,
                )),
    {
        if self.client_index(user_id).is_none() {
            return;
        }
        let mut i: usize = 0;
        while i < room_ids.len()
            invariant
                self.wf(),
                i <= room_ids@.len(),
                has_client(self.clients@, user_id),
                forall|k: int|
                    0 <= k < i ==> subscribed(self.clients@, user_id, #[trigger] room_ids@[k]),
                self.typing == old(self).typing,
                forall|u: u64|
                    has_client(self.clients@, u) == has_client(old(self).clients@, u),
                forall|u: u64, rm: u64|
                    u != user_id ==> (subscribed(self.clients@, u, rm) == subscribed(
                        old(self).clients@,
                        u,
                        rm,
                    )),
                forall|rm: u64|
                    subscribed(old(self).clients@, user_id, rm) ==> subscribed(
                        self.clients@,
                        user_id,
                        rm,
                    ),
            decreases room_ids@.len() - i,
        {
            let ghost mid = *self;
            let res = self.join_room(user_id, room_ids[i]);
            proof {
                assert(res is Ok);
                assert forall|k: int|
                    0 <= k <= i implies subscribed(self.clients@, user_id, #[trigger] room_ids@[k]) by {
                    if k < i {
                        assert(subscribed(mid.clients@, user_id, room_ids@[k]));
                    }
                }
            }
            i = i + 1;
        }
    }

    /// The user ids currently subscribed to the room, for broadcast
    /// targeting.
    pub fn room_subscribers(&self, room_id: u64) -> (r: Vec<u64>)
        ensures
            r@ == subscribers_spec(self.clients@, room_id),
    {
        let ghost all = subscribers_spec(self.clients@, room_id);
        proof {
            assert(self.clients@.skip(0) =~= self.clients@);
        }
        let mut r: Vec<u64> = Vec::new();
        let mut i: usize = 0;
        while i < self.clients.len()
            invariant
                i <= self.clients@.len(),
                all == subscribers_spec(self.clients@, room_id),
                all == r@ + subscribers_spec(self.clients@.skip(i as int), room_id),
            decreases self.clients@.len() - i,
        {
            proof {
                assert(self.clients@.skip(i as int).drop_first() =~= self.clients@.skip(
                    i as int + 1,
                ));
                assert(self.clients@.skip(i as int)[0] == self.clients@[i as int]);
            }
            if contains_u64(&self.clients[i].rooms, room_id) {
                let ghost prev = r@;
                r.push(self.clients[i].user_id);
                proof {
                    assert(prev.push(self.clients@[i as int].user_id) + subscribers_spec(
                        self.clients@.skip(i as int + 1),
                        room_id,
                    ) =~= prev + (seq![self.clients@[i as int].user_id] + subscribers_spec(
                        self.clients@.skip(i as int + 1),
                        room_id,
                    )));
                }
            }
            i = i + 1;
        }
        proof {
            assert(self.clients@.skip(self.clients@.len() as int) =~= Seq::<ClientInfo>::empty());
            assert(r@ + subscribers_spec(Seq::<ClientInfo>::empty(), room_id) =~= r@);
        }
        r
    }

    /// Starts or stops the user's typing indicator in a room; the user
    /// must currently be subscribed there.
    pub fn set_typing(&mut self, user_id: u64, room_id: u64, is_typing: bool) -> (r: Result<
        (),
        AuthError,
    >)
        requires
            old(self).wf(),
        ensures
            final(self).wf(),
            final(self).clients == old(self).clients,
            r is Ok <==> subscribed(old(self).clients@, user_id, room_id),
            r matches Err(e) ==> e is InvalidInput && *final(self) == *old(self),
            r is Ok ==> typing_has(final(self).typing@, room_id, user_id) == is_typing,
            forall|p: (u64, u64)|
                p != (room_id, user_id) ==> (final(self).typing@.contains(p) == old(
                    self,
                ).typing@.contains(p)),
    {
        let subscribed_now = match self.client_index(user_id) {
            Some(i) => contains_u64(&self.clients[i].rooms, room_id),
            None => false,
        };
        proof {
            if subscribed_now {
                assert(subscribed(self.clients@, user_id, room_id));
            } else {
                if subscribed(self.clients@, user_id, room_id) {
                    let w = choose|w: int|
                        0 <= w < self.clients@.len() && (#[trigger] self.clients@[w]).user_id
                            == user_id && self.clients@[w].rooms@.contains(room_id);
                    assert(has_client(self.clients@, user_id));
                }
            }
        }
        if !subscribed_now {
            return Err(AuthError::InvalidInput(String::from_str("User not in room")));
        }
        let ghost pre_t = self.typing@;
        if is_typing {
            let mut found = false;
            let mut j: usize = 0;
            while j < self.typing.len()
                invariant
                    is_typing,
                    j <= self.typing@.len(),
                    *self == *old(self),
                    old(self).wf(),
                    pre_t == old(self).typing@,
                    self.typing@ == pre_t,
                    !found ==> forall|k: int|
                        0 <= k < j ==> #[trigger] pre_t[k] != (room_id, user_id),
                    found ==> typing_has(pre_t, room_id, user_id),
                decreases self.typing@.len() - j,
            {
                if self.typing[j].0 == room_id && self.typing[j].1 == user_id {
                    found = true;
                    proof {
                        assert(pre_t[j as int] == (room_id, user_id));
                    }
                }
                j = j + 1;
            }
            if !found {
                self.typing.push((room_id, user_id));
                proof {
                    assert(self.typing@[self.typing@.len() - 1] == (room_id, user_id));
                    assert(typing_has(self.typing@, room_id, user_id));
                    assert forall|a: int, b: int|
                        0 <= a < b < self.typing@.len() implies #[trigger] self.typing@[a] != (
                    #[trigger] self.typing@[b]) by {
                        if b < self.typing@.len() - 1 {
                            assert(self.typing@[a] == pre_t[a] && self.typing@[b] == pre_t[b]);
                        } else {
                            assert(self.typing@[a] == pre_t[a]);
                        }
                    }
                    assert forall|p: (u64, u64)|
                        p != (room_id, user_id) implies (self.typing@.contains(p)
                        == pre_t.contains(p)) by {
                        if self.typing@.contains(p) {
                            let k = choose|k: int|
                                0 <= k < self.typing@.len() && #[trigger] self.typing@[k] == p;
                            assert(k < pre_t.len());
                            assert(pre_t[k] == p);
                        }
                        if pre_t.contains(p) {
                            let k = choose|k: int|
                                0 <= k < pre_t.len() && #[trigger] pre_t[k] == p;
                            assert(self.typing@[k] == p);
                        }
                    }
                }
            }
            Ok(())
        } else {
            let mut j: usize = 0;
            while j < self.typing.len()
                invariant
                    !is_typing,
                    j <= self.typing@.len(),
                    self.clients == old(self).clients,
                    old(self).wf(),
                    pre_t == old(self).typing@,
                    subscribed(old(self).clients@, user_id, room_id),
                    self.typing@ == pre_t,
                    forall|a: int, b: int|
                        0 <= a < b < pre_t.len() ==> #[trigger] pre_t[a] != (#[trigger] pre_t[b]),
                    forall|k: int| 0 <= k < j ==> #[trigger] pre_t[k] != (room_id, user_id),
                decreases self.typing@.len() - j,
            {
                if self.typing[j].0 == room_id && self.typing[j].1 == user_id {
                    self.typing.remove(j);
                    proof {
                        assert forall|k: int|
                            0 <= k < self.typing@.len() implies (#[trigger] self.typing@[k]) != (
                        room_id, user_id) by {
                            if k < j {
                                assert(self.typing@[k] == pre_t[k]);
                            } else {
                                assert(self.typing@[k] == pre_t[k + 1]);
                            }
                        }
                        assert forall|a: int, b: int|
                            0 <= a < b < self.typing@.len() implies #[trigger] self.typing@[a] != (
                        #[trigger] self.typing@[b]) by {
                            let pa = if a < j {
                                a
                            } else {
                                a + 1
                            };
                            let pb = if b < j {
                                b
                            } else {
                                b + 1
                            };
                            assert(self.typing@[a] == pre_t[pa] && self.typing@[b] == pre_t[pb]);
                        }
                        assert forall|p: (u64, u64)|
                            p != (room_id, user_id) implies (self.typing@.contains(p)
                            == pre_t.contains(p)) by {
                            if self.typing@.contains(p) {
                                let k = choose|k: int|
                                    0 <= k < self.typing@.len() && #[trigger] self.typing@[k] == p;
                                let pk = if k < j {
                                    k
                                } else {
                                    k + 1
                                };
                                assert(pre_t[pk] == p);
                            }
                            if pre_t.contains(p) {
                                let k = choose|k: int|
                                    0 <= k < pre_t.len() && #[trigger] pre_t[k] == p;
                                if k < j {
                                    assert(self.typing@[k] == p);
                                } else {
                                    assert(k != j);
                                    assert(self.typing@[k - 1] == p);
                                }
                            }
                        }
                        assert(!typing_has(self.typing@, room_id, user_id)) by {
                            if typing_has(self.typing@, room_id, user_id) {
                                let k = choose|k: int|
                                    0 <= k < self.typing@.len() && #[trigger] self.typing@[k] == (
                                    room_id, user_id);
                            }
                        }
                    }
                    return Ok(());
                }
                j = j + 1;
            }
            proof {
                assert(!typing_has(self.typing@, room_id, user_id)) by {
                    if typing_has(self.typing@, room_id, user_id) {
                        let k = choose|k: int|
                            0 <= k < self.typing@.len() && #[trigger] self.typing@[k] == (
                            room_id, user_id);
                    }
                }
            }
            Ok(())
        }
    }

    /// The users currently typing in a room, paired with their names, for
    /// rendering a typing indicator.
    pub fn get_typing_users(&self, room_id: u64) -> (r: Vec<TypingUser>)
        requires
            self.wf(),
        ensures
            r@.len() == typing_ids_spec(self.typing@, self.clients@, room_id).len(),
            forall|k: int|
                0 <= k < r@.len() ==> (#[trigger] r@[k]).user_id == typing_ids_spec(
                    self.typing@,
                    self.clients@,
                    room_id,
                )[k] && r@[k].username@ == client_by_id(
                    self.clients@,
                    typing_ids_spec(self.typing@, self.clients@, room_id)[k],
                ).username@,
    {
        let ghost ids = typing_ids_spec(self.typing@, self.clients@, room_id);
        proof {
            assert(self.typing@.skip(0) =~= self.typing@);
        }
        let mut r: Vec<TypingUser> = Vec::new();
        let ghost mut done: Seq<u64> = Seq::empty();
        let mut i: usize = 0;
        while i < self.typing.len()
            invariant
                self.wf(),
                i <= self.typing@.len(),
                ids == typing_ids_spec(self.typing@, self.clients@, room_id),
                ids == done + typing_ids_spec(
                    self.typing@.skip(i as int),
                    self.clients@,
                    room_id,
                ),
                r@.len() == done.len(),
                forall|k: int|
                    0 <= k < done.len() ==> (#[trigger] r@[k]).user_id == done[k]
                        && r@[k].username@ == client_by_id(self.clients@, done[k]).username@,
            decreases self.typing@.len() - i,
        {
            proof {
                assert(self.typing@.skip(i as int).drop_first() =~= self.typing@.skip(
                    i as int + 1,
                ));
                assert(self.typing@.skip(i as int)[0] == self.typing@[i as int]);
            }
            let pair = self.typing[i];
            if pair.0 == room_id {
                match self.client_index(pair.1) {
                    Some(ci) => {
                        proof {
                            assert(has_client(self.clients@, pair.1));
                            let w = choose|w: int|
                                0 <= w < self.clients@.len() && (
                                #[trigger] self.clients@[w]).user_id == pair.1;
                            if w != ci {
                            }
                            assert(client_by_id(self.clients@, pair.1)
                                == self.clients@[ci as int]);
                        }
                        let tu = TypingUser {
                            user_id: pair.1,
                            username: self.clients[ci].username.clone(),
                        };
                        r.push(tu);
                        proof {
                            done = done.push(pair.1);
                            assert(done.drop_last() + (seq![pair.1] + typing_ids_spec(
                                self.typing@.skip(i as int + 1),
                                self.clients@,
                                room_id,
                            )) =~= done + typing_ids_spec(
                                self.typing@.skip(i as int + 1),
                                self.clients@,
                                room_id,
                            ));
                        }
                    },
                    None => {},
                }
            }
            i = i + 1;
        }
        proof {
            assert(self.typing@.skip(self.typing@.len() as int) =~= Seq::<(u64, u64)>::empty());
            assert(done + typing_ids_spec(
                Seq::<(u64, u64)>::empty(),
                self.clients@,
                room_id,
            ) =~= done);
        }
        r
    }
}

} // verus!
