//! The access-control gate: pure capability checks over membership and
//! ownership facts, consulted by the ledger and the invite engine before any
//! mutation. Its facts change only when a membership fact is added or
//! removed, or a new server is recorded.

use vstd::prelude::*;
use crate::ChatError;

verus! {

/// A membership fact: the user joined the server at the given time.
#[derive(Clone, Copy, Debug, PartialEq, Eq, Structural)]
pub struct ServerMember {
    pub user_id: u128,
    pub server_id: u128,
    pub joined_at: u64,
}

/// An ownership fact: the server is owned by the user.
#[derive(Clone, Copy, Debug, PartialEq, Eq, Structural)]
pub struct ServerOwner {
    pub server_id: u128,
    pub owner_id: u128,
}

/// Membership and ownership facts, with the capability checks the other
/// components consult.
pub struct AccessGate {
    pub owners: Vec<ServerOwner>,
    pub members: Vec<ServerMember>,
}

#[verifier::ext_equal]
pub ghost struct AccessGateView {
    pub owners: Seq<ServerOwner>,
    pub members: Seq<ServerMember>,
}

impl View for AccessGate {
    type V = AccessGateView;

    open spec fn view(&self) -> AccessGateView {
        (AccessGateView { owners: self.owners@, members: self.members@ })
    }
}

impl AccessGateView {
    /// Well-formedness: one ownership fact per server, one membership fact per
    /// (user, server) pair.
    pub open spec fn wf(self) -> bool {
        &&& forall|i: int, j: int|
            0 <= i < j < self.owners.len() ==> (#[trigger] self.owners[i]).server_id
                != (#[trigger] self.owners[j]).server_id
        &&& forall|i: int, j: int|
            0 <= i < j < self.members.len() ==> !((#[trigger] self.members[i]).user_id
                == (#[trigger] self.members[j]).user_id && self.members[i].server_id
                == self.members[j].server_id)
    }

    /// Whether a membership fact for (user, server) exists.
    pub open spec fn is_member(self, user_id: u128, server_id: u128) -> bool {
        exists|i: int|
            0 <= i < self.members.len() && (#[trigger] self.members[i]).user_id == user_id
                && self.members[i].server_id == server_id
    }

    /// Whether an ownership fact names the user as the server's owner.
    pub open spec fn is_owner(self, user_id: u128, server_id: u128) -> bool {
        exists|i: int|
            0 <= i < self.owners.len() && (#[trigger] self.owners[i]).server_id == server_id
                && self.owners[i].owner_id == user_id
    }

    /// Whether a server with the given identifier is known.
    pub open spec fn has_server(self, server_id: u128) -> bool {
        exists|i: int| 0 <= i < self.owners.len() && (#[trigger] self.owners[i]).server_id
            == server_id
    }

    /// Whether the user may write in channels of the server.
    pub open spec fn can_write(self, user_id: u128, server_id: u128) -> bool {
        self.is_member(user_id, server_id) || self.is_owner(user_id, server_id)
    }

    /// Whether the user may moderate channels of the server.
    pub open spec fn can_moderate(self, user_id: u128, server_id: u128) -> bool {
        self.is_owner(user_id, server_id)
    }
}

impl AccessGate {
    /// A gate with no facts.
    pub fn new() -> (r: AccessGate)
        ensures
            r@.owners == Seq::<ServerOwner>::empty(),
            r@.members == Seq::<ServerMember>::empty(),
            r@.wf(),
    {
        AccessGate { owners: Vec::new(), members: Vec::new() }
    }

    /// Whether a membership fact for (user, server) exists. Pure query; never
    /// mutates.
    pub fn is_member(&self, user_id: u128, server_id: u128) -> (r: bool)
        ensures
            r == self@.is_member(user_id, server_id),
    {
        let mut i: usize = 0;
        while i < self.members.len()
            invariant
                i <= self.members@.len(),
                forall|j: int|
                    0 <= j < i ==> !((#[trigger] self.members@[j]).user_id == user_id
                        && self.members@[j].server_id == server_id),
            decreases self.members@.len() - i,
        {
            if self.members[i].user_id == user_id && self.members[i].server_id == server_id {
                proof {
                    assert(self@.members[i as int].user_id == user_id);
                }
                return true;
            }
            i = i + 1;
        }
        false
    }

    /// Whether the user owns the server. Pure query; never mutates.
    pub fn is_owner(&self, user_id: u128, server_id: u128) -> (r: bool)
        ensures
            r == self@.is_owner(user_id, server_id),
    {
        let mut i: usize = 0;
        while i < self.owners.len()
            invariant
                i <= self.owners@.len(),
                forall|j: int|
                    0 <= j < i ==> !((#[trigger] self.owners@[j]).server_id == server_id
                        && self.owners@[j].owner_id == user_id),
            decreases self.owners@.len() - i,
        {
            if self.owners[i].server_id == server_id && self.owners[i].owner_id == user_id {
                proof {
                    assert(self@.owners[i as int].server_id == server_id);
                }
                return true;
            }
            i = i + 1;
        }
        false
    }

    /// Whether the user may write in channels of the server: members and the
    /// owner may.
    pub fn can_write_channel(&self, user_id: u128, server_id: u128) -> (r: bool)
        ensures
            r == self@.can_write(user_id, server_id),
    {
        self.is_member(user_id, server_id) || self.is_owner(user_id, server_id)
    }

    /// Whether the user may moderate channels of the server: only the owner
    /// may.
    pub fn can_moderate(&self, user_id: u128, server_id: u128) -> (r: bool)
        ensures
            r == self@.can_moderate(user_id, server_id),
    {
        self.is_owner(user_id, server_id)
    }

    /// Records a new server and its owner. Fails `Conflict` when the server
    /// identifier is already taken; nothing changes then.
    pub fn add_server(&mut self, server_id: u128, owner_id: u128) -> (r: Result<(), ChatError>)
        requires
            old(self)@.wf(),
        ensures
            final(self)@.wf(),
            old(self)@.has_server(server_id) ==> r == Err::<(), ChatError>(ChatError::Conflict)
                && final(self)@ == old(self)@,
            !old(self)@.has_server(server_id) ==> r == Ok::<(), ChatError>(()) && final(self)@.owners
                == old(self)@.owners.push((ServerOwner { server_id, owner_id })) && final(self)@.members
                == old(self)@.members,
    {
        let mut i: usize = 0;
        while i < self.owners.len()
            invariant
                self@ == old(self)@,
                old(self)@.wf(),
                i <= self.owners@.len(),
                forall|j: int| 0 <= j < i ==> (#[trigger] self.owners@[j]).server_id != server_id,
            decreases self.owners@.len() - i,
        {
            if self.owners[i].server_id == server_id {
                proof {
                    assert(self@.owners[i as int].server_id == server_id);
                }
                return Err(ChatError::Conflict);
            }
            i = i + 1;
        }
        proof {
            assert(!self@.has_server(server_id)) by {
                if self@.has_server(server_id) {
                    let k = choose|k: int|
                        0 <= k < self@.owners.len() && (#[trigger] self@.owners[k]).server_id
                            == server_id;
                }
            }
        }
        let ghost pre = self@;
        self.owners.push(ServerOwner { server_id, owner_id });
        proof {
            let post = self@;
            assert(post.members == pre.members);
            assert forall|p: int, q: int|
                0 <= p < q < post.owners.len() implies (#[trigger] post.owners[p]).server_id
                != (#[trigger] post.owners[q]).server_id by {
                assert(post.owners[p] == pre.owners[p]);
                if q == post.owners.len() - 1 {
                } else {
                    assert(post.owners[q] == pre.owners[q]);
                }
            }
            assert forall|p: int, q: int|
                0 <= p < q < post.members.len() implies !((#[trigger] post.members[p]).user_id
                == (#[trigger] post.members[q]).user_id && post.members[p].server_id
                == post.members[q].server_id) by {
                assert(post.members[p] == pre.members[p]);
                assert(post.members[q] == pre.members[q]);
            }
        }
        Ok(())
    }

    /// Creates a membership fact for (user, server) with the given join time.
    /// Creating one that already exists is a no-op: the triple is the natural
    /// key.
    pub fn add_member(&mut self, user_id: u128, server_id: u128, joined_at: u64)
        requires
            old(self)@.wf(),
        ensures
            final(self)@.wf(),
            final(self)@.owners == old(self)@.owners,
            old(self)@.is_member(user_id, server_id) ==> final(self)@ == old(self)@,
            !old(self)@.is_member(user_id, server_id) ==> final(self)@.members == old(
                self,
            )@.members.push((ServerMember { user_id, server_id, joined_at })),
            final(self)@.is_member(user_id, server_id),
    {
        if !self.is_member(user_id, server_id) {
            let ghost pre = self@;
            self.members.push(ServerMember { user_id, server_id, joined_at });
            proof {
                let post = self@;
                assert(post.owners == pre.owners);
                assert(post.members[post.members.len() - 1].user_id == user_id);
                assert forall|p: int, q: int|
                    0 <= p < q < post.owners.len() implies (#[trigger] post.owners[p]).server_id
                    != (#[trigger] post.owners[q]).server_id by {
                    assert(post.owners[p] == pre.owners[p]);
                    assert(post.owners[q] == pre.owners[q]);
                }
                assert forall|p: int, q: int|
                    0 <= p < q < post.members.len() implies !((#[trigger] post.members[p]).user_id
                    == (#[trigger] post.members[q]).user_id && post.members[p].server_id
                    == post.members[q].server_id) by {
                    assert(post.members[p] == pre.members[p]);
                    if q == post.members.len() - 1 {
                        if post.members[p].user_id == user_id && post.members[p].server_id
                            == server_id {
                            assert(pre.is_member(user_id, server_id));
                        }
                    } else {
                        assert(post.members[q] == pre.members[q]);
                    }
                }
            }
        }
    }

    /// Joins a user to a server as a standalone operation: the composite
    /// (user, server) key is enforced, so joining a server the user is already
    /// a member of fails `Conflict` and changes nothing. Invite redemption
    /// instead treats an existing membership as a no-op.
    pub fn join_server(&mut self, user_id: u128, server_id: u128, joined_at: u64) -> (r: Result<
        (),
        ChatError,
    >)
        requires
            old(self)@.wf(),
        ensures
            final(self)@.wf(),
            old(self)@.is_member(user_id, server_id) ==> r == Err::<(), ChatError>(
                ChatError::Conflict,
            ) && final(self)@ == old(self)@,
            !old(self)@.is_member(user_id, server_id) ==> r == Ok::<(), ChatError>(())
                && final(self)@.owners == old(self)@.owners && final(self)@.members == old(
                self,
            )@.members.push((ServerMember { user_id, server_id, joined_at })),
            final(self)@.is_member(user_id, server_id),
    {
        if self.is_member(user_id, server_id) {
            return Err(ChatError::Conflict);
        }
        self.add_member(user_id, server_id, joined_at);
        Ok(())
    }

    /// Removes the membership fact for (user, server); removing an absent fact
    /// is a no-op.
    pub fn remove_member(&mut self, user_id: u128, server_id: u128)
        requires
            old(self)@.wf(),
        ensures
            final(self)@.wf(),
            final(self)@.owners == old(self)@.owners,
            !final(self)@.is_member(user_id, server_id),
            !old(self)@.is_member(user_id, server_id) ==> final(self)@ == old(self)@,
            forall|u: u128, s: u128|
                !(u == user_id && s == server_id) ==> #[trigger] final(self)@.is_member(u, s) == old(
                    self,
                )@.is_member(u, s),
    {
        let ghost pre = self@;
        let mut i: usize = 0;
        while i < self.members.len()
            invariant
                self@ == pre,
                pre == old(self)@,
                pre.wf(),
                i <= self.members@.len(),
                forall|j: int|
                    0 <= j < i ==> !((#[trigger] self.members@[j]).user_id == user_id
                        && self.members@[j].server_id == server_id),
            decreases self.members@.len() - i,
        {
            if self.members[i].user_id == user_id && self.members[i].server_id == server_id {
                proof {
                    assert(self@.members[i as int].user_id == user_id);
                    assert(pre.is_member(user_id, server_id));
                }
                self.members.remove(i);
                proof {
                    let post = self@;
                    assert(post.owners == pre.owners);
                    assert forall|p: int, q: int|
                        0 <= p < q < post.owners.len() implies (#[trigger] post.owners[p]).server_id
                        != (#[trigger] post.owners[q]).server_id by {
                        assert(post.owners[p] == pre.owners[p]);
                        assert(post.owners[q] == pre.owners[q]);
                    }
                    assert forall|p: int, q: int|
                        0 <= p < q < post.members.len() implies !((#[trigger] post.members[p]).user_id
                        == (#[trigger] post.members[q]).user_id && post.members[p].server_id
                        == post.members[q].server_id) by {
                        let p0 = if p < i { p } else { p + 1 };
                        let q0 = if q < i { q } else { q + 1 };
                        assert(post.members[p] == pre.members[p0]);
                        assert(post.members[q] == pre.members[q0]);
                    }
                    assert forall|u: u128, s: u128|
                        !(u == user_id && s == server_id) implies #[trigger] post.is_member(u, s)
                        == pre.is_member(u, s) by {
                        if pre.is_member(u, s) {
                            let k = choose|k: int|
                                0 <= k < pre.members.len() && (#[trigger] pre.members[k]).user_id
                                    == u && pre.members[k].server_id == s;
                            if k < i {
                                assert(post.members[k] == pre.members[k]);
                            } else {
                                assert(k > i);
                                assert(post.members[k - 1] == pre.members[k]);
                            }
                        }
                        if post.is_member(u, s) {
                            let k = choose|k: int|
                                0 <= k < post.members.len() && (#[trigger] post.members[k]).user_id
                                    == u && post.members[k].server_id == s;
                            if k < i {
                                assert(pre.members[k] == post.members[k]);
                            } else {
                                assert(pre.members[k + 1] == post.members[k]);
                            }
                        }
                    }
                    assert(!post.is_member(user_id, server_id)) by {
                        if post.is_member(user_id, server_id) {
                            let k = choose|k: int|
                                0 <= k < post.members.len() && (#[trigger] post.members[k]).user_id
                                    == user_id && post.members[k].server_id == server_id;
                            if k < i {
                                assert(pre.members[k] == post.members[k]);
                            } else {
                                assert(pre.members[k + 1] == post.members[k]);
                            }
                        }
                    }
                }
                return ;
            }
            i = i + 1;
        }
        proof {
            assert(!self@.is_member(user_id, server_id)) by {
                if self@.is_member(user_id, server_id) {
                    let k = choose|k: int|
                        0 <= k < self@.members.len() && (#[trigger] self@.members[k]).user_id
                            == user_id && self@.members[k].server_id == server_id;
                }
            }
        }
    }
}

} // verus!
