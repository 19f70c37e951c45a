//! User records and the directory that registers them: identifiers, usernames
//! and email addresses are unique, and presence status changes are applied to
//! exactly the addressed user. Credential verification itself is an external
//! capability; this core only consumes an authenticated user identifier.

use vstd::prelude::*;
use vstd::string::StrSliceExecFns;
use crate::ChatError;
use crate::strutil::str_eq;
use crate::wire::UserStatus;

verus! {

/// A user's stored record.
pub struct User {
    pub id: u128,
    pub username: String,
    pub display_name: Option<String>,
    pub email: String,
    pub avatar: Option<String>,
    pub status: UserStatus,
    pub custom_status: Option<String>,
    pub created_at: u64,
    pub updated_at: u64,
}

#[verifier::ext_equal]
pub ghost struct UserView {
    pub id: u128,
    pub username: Seq<char>,
    pub display_name: Option<Seq<char>>,
    pub email: Seq<char>,
    pub avatar: Option<Seq<char>>,
    pub status: UserStatus,
    pub custom_status: Option<Seq<char>>,
    pub created_at: u64,
    pub updated_at: u64,
}

impl View for User {
    type V = UserView;

    open spec fn view(&self) -> UserView {
        (UserView {
            id: self.id,
            username: self.username@,
            display_name: match self.display_name {
                Some(ref s) => Some(s@),
                None => None,
            },
            email: self.email@,
            avatar: match self.avatar {
                Some(ref s) => Some(s@),
                None => None,
            },
            status: self.status,
            custom_status: match self.custom_status {
                Some(ref s) => Some(s@),
                None => None,
            },
            created_at: self.created_at,
            updated_at: self.updated_at,
        })
    }
}

impl DeepView for User {
    type V = UserView;

    open spec fn deep_view(&self) -> UserView {
        self.view()
    }
}

/// The directory of registered users.
pub struct UserDirectory {
    pub users: Vec<User>,
}

impl View for UserDirectory {
    type V = Seq<UserView>;

    open spec fn view(&self) -> Seq<UserView> {
        self.users.deep_view()
    }
}

/// Whether a user with the identifier exists.
pub open spec fn has_user(s: Seq<UserView>, id: u128) -> bool {
    exists|i: int| 0 <= i < s.len() && (#[trigger] s[i]).id == id
}

/// First index of the user with the identifier; meaningful only when present.
pub open spec fn user_index(s: Seq<UserView>, id: u128) -> int
    decreases s.len(),
{
    if s.len() == 0 {
        0
    } else if s[0].id == id {
        0
    } else {
        1 + user_index(s.skip(1), id)
    }
}

/// Whether registering (id, username, email) collides with a stored record.
pub open spec fn reg_taken(s: Seq<UserView>, id: u128, username: Seq<char>, email: Seq<char>) -> bool {
    exists|i: int|
        0 <= i < s.len() && ((#[trigger] s[i]).id == id || s[i].username == username || s[i].email
            == email)
}

/// Well-formedness of the directory: identifiers, usernames and email
/// addresses are each unique.
pub open spec fn directory_wf(s: Seq<UserView>) -> bool {
    forall|i: int, j: int|
        0 <= i < j < s.len() ==> ((#[trigger] s[i]).id != (#[trigger] s[j]).id && s[i].username
            != s[j].username && s[i].email != s[j].email)
}

impl UserDirectory {
    /// An empty directory.
    pub fn new() -> (r: UserDirectory)
        ensures
            r@ == Seq::<UserView>::empty(),
            directory_wf(r@),
    {
        let r = UserDirectory { users: Vec::new() };
        proof {
            assert(r@ =~= Seq::<UserView>::empty());
        }
        r
    }

    /// Registers a user. Fails `Conflict` exactly when the identifier,
    /// username or email address is already taken; the directory is unchanged
    /// then. A fresh account starts offline with no display name, avatar or
    /// custom status.
    pub fn register_user(&mut self, id: u128, username: String, email: String, now: u64) -> (r:
        Result<(), ChatError>)
        requires
            directory_wf(old(self)@),
        ensures
            directory_wf(final(self)@),
            reg_taken(old(self)@, id, username@, email@) ==> r == Err::<(), ChatError>(
                ChatError::Conflict,
            ) && final(self)@ == old(self)@,
            !reg_taken(old(self)@, id, username@, email@) ==> r == Ok::<(), ChatError>(())
                && final(self)@ == old(self)@.push(
                (UserView {
                    id,
                    username: username@,
                    display_name: None,
                    email: email@,
                    avatar: None,
                    status: UserStatus::Offline,
                    custom_status: None,
                    created_at: now,
                    updated_at: now,
                }),
            ),
    {
        let ghost pre = self@;
        let mut i: usize = 0;
        while i < self.users.len()
            invariant
                self@ == pre,
                pre == old(self)@,
                directory_wf(pre),
                i <= self.users@.len(),
                self.users@.len() == pre.len(),
                forall|j: int|
                    0 <= j < i ==> !((#[trigger] pre[j]).id == id || pre[j].username == username@
                        || pre[j].email == email@),
            decreases self.users@.len() - i,
        {
            let same_id = self.users[i].id == id;
            let same_name = str_eq(self.users[i].username.as_str(), username.as_str());
            let same_mail = str_eq(self.users[i].email.as_str(), email.as_str());
            proof {
                assert(pre[i as int] == self.users@[i as int]@);
            }
            if same_id || same_name || same_mail {
                proof {
                    assert(reg_taken(pre, id, username@, email@));
                }
                return Err(ChatError::Conflict);
            }
            i = i + 1;
        }
        proof {
            assert(!reg_taken(pre, id, username@, email@)) by {
                if reg_taken(pre, id, username@, email@) {
                    let k = choose|k: int|
                        0 <= k < pre.len() && ((#[trigger] pre[k]).id == id || pre[k].username
                            == username@ || pre[k].email == email@);
                }
            }
        }
        let ghost prevec = self.users@;
        let ghost uname = username@;
        let ghost mail = email@;
        self.users.push(
            User {
                id,
                username,
                display_name: None,
                email,
                avatar: None,
                status: UserStatus::Offline,
                custom_status: None,
                created_at: now,
                updated_at: now,
            },
        );
        proof {
            assert forall|w: int| 0 <= w < pre.len() implies self@[w] == pre[w] by {
                assert(self.users@[w] == prevec[w]);
                assert(prevec[w].deep_view() == pre[w]);
            }
            assert(self@[pre.len() as int] == self.users@[pre.len() as int]@);
            assert(self@ =~= pre.push(
                (UserView {
                    id,
                    username: uname,
                    display_name: None,
                    email: mail,
                    avatar: None,
                    status: UserStatus::Offline,
                    custom_status: None,
                    created_at: now,
                    updated_at: now,
                }),
            ));
            assert forall|p: int, q: int|
                0 <= p < q < self@.len() implies ((#[trigger] self@[p]).id != (#[trigger] self@[
            q]).id && self@[p].username != self@[q].username && self@[p].email
                != self@[q].email) by {
                assert(self@[p] == pre[p]);
                if q == self@.len() - 1 {
                    if pre[p].id == id || pre[p].username == uname || pre[p].email == mail {
                        assert(reg_taken(pre, id, uname, mail));
                    }
                } else {
                    assert(self@[q] == pre[q]);
                }
            }
        }
        Ok(())
    }

    /// Sets a user's presence status and stamps the update time. Fails
    /// `NotFound` when no user carries the identifier; nothing else changes.
    pub fn update_user_status(&mut self, user_id: u128, status: UserStatus, now: u64) -> (r: Result<
        (),
        ChatError,
    >)
        requires
            directory_wf(old(self)@),
        ensures
            directory_wf(final(self)@),
            !has_user(old(self)@, user_id) ==> r == Err::<(), ChatError>(ChatError::NotFound)
                && final(self)@ == old(self)@,
            has_user(old(self)@, user_id) ==> r == Ok::<(), ChatError>(())
                && final(self)@ == old(self)@.update(
                user_index(old(self)@, user_id),
                (UserView { status, updated_at: now, ..old(self)@[user_index(old(self)@, user_id)] }),
            ),
    {
        let ghost pre = self@;
        let mut i: usize = 0;
        while i < self.users.len()
            invariant
                self@ == pre,
                pre == old(self)@,
                directory_wf(pre),
                i <= self.users@.len(),
                self.users@.len() == pre.len(),
                forall|j: int| 0 <= j < i ==> (#[trigger] pre[j]).id != user_id,
            decreases self.users@.len() - i,
        {
            proof {
                assert(pre[i as int] == self.users@[i as int]@);
            }
            if self.users[i].id == user_id {
                proof {
                    assert(pre[i as int].id == user_id);
                    lemma_user_index_first(pre, user_id, i as int);
                }
                let ghost prevec = self.users@;
                let mut u = self.users.remove(i);
                u.status = status;
                u.updated_at = now;
                let ghost uv = u@;
                self.users.insert(i, u);
                proof {
                    assert(uv =~= (UserView { status, updated_at: now, ..pre[i as int] }));
                    assert(self@ =~= pre.update(i as int, uv)) by {
                        prevec.remove_ensures(i as int);
                        assert forall|w: int| 0 <= w < self@.len() implies self@[w] == pre.update(
                            i as int,
                            uv,
                        )[w] by {
                            assert(self.users@ == prevec.remove(i as int).insert(i as int, u));
                            prevec.remove(i as int).insert_ensures(i as int, u);
                            if w < i {
                                assert(self.users@[w] == prevec.remove(i as int)[w]);
                                assert(prevec.remove(i as int)[w] == prevec[w]);
                            } else if w > i {
                                assert(self.users@[w] == prevec.remove(i as int)[w - 1]);
                                assert(prevec.remove(i as int)[w - 1] == prevec[w]);
                            }
                        }
                    }
                    assert forall|p: int, q: int|
                        0 <= p < q < self@.len() implies ((#[trigger] self@[p]).id
                        != (#[trigger] self@[q]).id && self@[p].username != self@[q].username
                        && self@[p].email != self@[q].email) by {
                        assert(self@[p].id == pre[p].id && self@[p].username == pre[p].username
                            && self@[p].email == pre[p].email);
                        assert(self@[q].id == pre[q].id && self@[q].username == pre[q].username
                            && self@[q].email == pre[q].email);
                    }
                    assert(has_user(pre, user_id));
                }
                return Ok(());
            }
            i = i + 1;
        }
        proof {
            assert(!has_user(pre, user_id)) by {
                if has_user(pre, user_id) {
                    let k = choose|k: int| 0 <= k < pre.len() && (#[trigger] pre[k]).id == user_id;
                }
            }
        }
        Err(ChatError::NotFound)
    }
}

/// If the identifiers before position `i` all differ from `id` and the record
/// at `i` carries it, then `i` is its first index.
pub proof fn lemma_user_index_first(s: Seq<UserView>, id: u128, i: int)
    requires
        0 <= i < s.len(),
        s[i].id == id,
        forall|j: int| 0 <= j < i ==> (#[trigger] s[j]).id != id,
    ensures
        user_index(s, id) == i,
    decreases i,
{
    if i == 0 {
    } else {
        assert(s[0].id != id);
        lemma_user_index_first(s.skip(1), id, i - 1);
        assert forall|j: int| 0 <= j < i - 1 implies (#[trigger] s.skip(1)[j]).id != id by {
            assert(s.skip(1)[j] == s[j + 1]);
        }
        assert(s.skip(1)[i - 1] == s[i]);
    }
}

/// The token of a bearer authorization header: the text after the
/// seven-character prefix, or nothing when the header does not start with it.
pub open spec fn spec_bearer_token(header: Seq<char>) -> Option<Seq<char>> {
    if header.len() >= 7 && header.subrange(0, 7) == "Bearer "@ {
        Some(header.skip(7))
    } else {
        None
    }
}

/// Extracts the token from a bearer authorization header; what the token
/// proves is the business of the external authentication capability.
#[verifier::loop_isolation(false)]
pub fn parse_bearer_token(header: &str) -> (r: Option<String>)
    ensures
        (match r {
            Some(t) => spec_bearer_token(header@) == Some(t@),
            None => spec_bearer_token(header@) matches None,
        }),
{
    proof {
        reveal_strlit("Bearer ");
    }
    let n = header.unicode_len();
    if n < 7 {
        return None;
    }
    let prefix = "Bearer ";
    proof {
        assert(prefix@.len() == 7);
    }
    let mut i: usize = 0;
    while i < 7
        invariant
            i <= 7,
            n >= 7,
            n == header@.len(),
            forall|j: int| 0 <= j < i ==> header@[j] == "Bearer "@[j],
        decreases 7 - i,
    {
        if header.get_char(i) != prefix.get_char(i) {
            proof {
                assert(header@[i as int] != "Bearer "@[i as int]);
                assert(header@.subrange(0, 7)[i as int] == header@[i as int]);
                assert(header@.subrange(0, 7) != "Bearer "@);
            }
            return None;
        }
        proof {
            assert(header@[i as int] == "Bearer "@[i as int]);
        }
        i = i + 1;
    }
    proof {
        assert(header@.subrange(0, 7) =~= "Bearer "@);
    }
    let token = header.substring_char(7, n);
    Some(token.to_owned())
}

} // verus!
