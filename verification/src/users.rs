//! User accounts: creation with derived usernames, lookups by username or
//! id, targeted update, and all-or-nothing bulk removal, which also revokes
//! every session token of the removed accounts.

use vstd::prelude::*;

use crate::models::{NewUser, User, UserKind};
use crate::seqs::{ids_contain, lemma_filter_mem, lemma_filter_push, lemma_filter_sorted};
use crate::store::{has_user_id, has_username, user_matches, Store};
use crate::text::{username_from_name, username_view};
use crate::tokens::{token_map_remove_by_right, token_pairs, token_pairs_injective};

verus! {

/// `u` is what `user_add` stores for the request `nu` under the id `id`.
pub open spec fn fresh_user(u: User, id: u32, nu: NewUser) -> bool {
    u.id == id && u.first_name == nu.first_name && u.last_name == nu.last_name && u.password
        == nu.password && u.kind == nu.kind && u.username@ == username_view(
        nu.first_name@,
        nu.last_name@,
    )
}

/// The username belongs to a user whose id is being removed.
pub open spec fn user_removed_name(users: Seq<User>, ids: Seq<u32>, uname: Seq<char>) -> bool {
    exists|i: int|
        0 <= i < users.len() && ids.contains(#[trigger] users[i].id) && users[i].username@ == uname
}

/// The token registry after removing every token of the removed users.
pub open spec fn purge_pairs(
    p: Map<Seq<char>, Seq<char>>,
    users: Seq<User>,
    ids: Seq<u32>,
) -> Map<Seq<char>, Seq<char>> {
    Map::new(
        |k: Seq<char>| p.dom().contains(k) && !user_removed_name(users, ids, p[k]),
        |k: Seq<char>| p[k],
    )
}


/// Exactly what one `user_add` call does to the users table and its
/// allocator, as a relation between the states before and after.
pub open spec fn user_add_rel(
    pre: Seq<User>,
    pre_next: u32,
    post: Seq<User>,
    post_next: u32,
    nu: NewUser,
) -> bool {
    &&& post_next == pre_next + 1
    &&& forall|j: int|
        0 <= j < pre.len() && (#[trigger] pre[j]).username@ != username_view(
            nu.first_name@,
            nu.last_name@,
        ) ==> post[j] == pre[j]
    &&& (has_username(pre, username_view(nu.first_name@, nu.last_name@)) ==> post.len()
        == pre.len() && (forall|j: int|
        0 <= j < pre.len() && (#[trigger] pre[j]).username@ == username_view(
            nu.first_name@,
            nu.last_name@,
        ) ==> fresh_user(post[j], pre_next, nu)))
    &&& (!has_username(pre, username_view(nu.first_name@, nu.last_name@)) ==> post.len()
        == pre.len() + 1 && fresh_user(post[pre.len() as int], pre_next, nu))
}

/// The users table after storing a whole feed of accounts, one `user_add`
/// after the other, first feed entry first.
pub open spec fn users_seeded(
    pre: Seq<User>,
    pre_next: u32,
    post: Seq<User>,
    post_next: u32,
    feed: Seq<NewUser>,
) -> bool
    decreases feed.len(),
{
    if feed.len() == 0 {
        post == pre && post_next == pre_next
    } else {
        exists|mid: Seq<User>, mid_next: u32|
            #[trigger] user_add_rel(pre, pre_next, mid, mid_next, feed[0]) && users_seeded(
                mid,
                mid_next,
                post,
                post_next,
                feed.drop_first(),
            )
    }
}

/// Extending a seeded feed by one more stored account.
pub proof fn lemma_users_seeded_snoc(
    pre: Seq<User>,
    pre_next: u32,
    mid: Seq<User>,
    mid_next: u32,
    post: Seq<User>,
    post_next: u32,
    feed: Seq<NewUser>,
    nu: NewUser,
)
    requires
        users_seeded(pre, pre_next, mid, mid_next, feed),
        user_add_rel(mid, mid_next, post, post_next, nu),
    ensures
        users_seeded(pre, pre_next, post, post_next, feed.push(nu)),
    decreases feed.len(),
{
    assert(feed.push(nu)[0] == if feed.len() == 0 {
        nu
    } else {
        feed[0]
    });
    if feed.len() == 0 {
        assert(mid == pre && mid_next == pre_next);
        assert(feed.push(nu).drop_first() =~= Seq::<NewUser>::empty());
        assert(user_add_rel(pre, pre_next, post, post_next, nu));
        assert(users_seeded(post, post_next, post, post_next, feed.push(nu).drop_first()));
    } else {
        let (m1, n1) = choose|m1: Seq<User>, n1: u32|
            #[trigger] user_add_rel(pre, pre_next, m1, n1, feed[0]) && users_seeded(
                m1,
                n1,
                mid,
                mid_next,
                feed.drop_first(),
            );
        lemma_users_seeded_snoc(m1, n1, mid, mid_next, post, post_next, feed.drop_first(), nu);
        assert(feed.push(nu).drop_first() =~= feed.drop_first().push(nu));
        assert(user_add_rel(pre, pre_next, m1, n1, feed.push(nu)[0]));
    }
}

impl Store {
    /// The position of the user with this id, if any.
    pub(crate) fn user_pos(&self, id: u32) -> (r: Option<usize>)
        ensures
            r matches Some(j) ==> j < self.users@.len() && self.users@[j as int].id == id,
            r is None ==> !has_user_id(self.users@, id),
    {
        let mut i: usize = 0;
        while i < self.users.len()
            invariant
                i <= self.users@.len(),
                forall|j: int| 0 <= j < i ==> self.users@[j].id != id,
            decreases self.users@.len() - i,
        {
            if self.users[i].id == id {
                return Some(i);
            }
            i = i + 1;
        }
        None
    }

    /// The position of the user with this username, if any.
    pub(crate) fn username_pos(&self, username: &String) -> (r: Option<usize>)
        ensures
            r matches Some(j) ==> j < self.users@.len() && self.users@[j as int].username@
                == username@,
            r is None ==> !has_username(self.users@, username@),
    {
        let mut i: usize = 0;
        while i < self.users.len()
            invariant
                i <= self.users@.len(),
                forall|j: int| 0 <= j < i ==> self.users@[j].username@ != username@,
            decreases self.users@.len() - i,
        {
            if self.users[i].username == *username {
                return Some(i);
            }
            i = i + 1;
        }
        None
    }

    /// Stores a new account under a fresh id and the username derived from
    /// the name. A colliding username replaces the older account, as the
    /// engine does not disambiguate collisions.
    pub fn user_add(&mut self, user: NewUser) -> (r: User)
        requires
            old(self).wf(),
            old(self).next_user_id < u32::MAX,
        ensures
            final(self).wf(),
            Store::same_but_users(*old(self), *final(self)),
            final(self).next_user_id == old(self).next_user_id + 1,
            final(self).dirty,
            fresh_user(r, old(self).next_user_id, user),
            forall|j: int|
                0 <= j < old(self).users@.len() && #[trigger] old(self).users@[j].username@
                    != username_view(user.first_name@, user.last_name@) ==> final(self).users@[j]
                    == old(self).users@[j],
            has_username(old(self).users@, username_view(user.first_name@, user.last_name@)) ==> (
            final(self).users@.len() == old(self).users@.len() && (forall|j: int|
                0 <= j < old(self).users@.len() && #[trigger] old(self).users@[j].username@
                    == username_view(user.first_name@, user.last_name@) ==> final(self).users@[j]
                    == r)),
            !has_username(old(self).users@, username_view(user.first_name@, user.last_name@))
                ==> final(self).users@ == old(self).users@.push(r),
    {
        let username = username_from_name(user.first_name.as_str(), user.last_name.as_str());
        let stored = User {
            id: self.next_user_id,
            first_name: user.first_name,
            last_name: user.last_name,
            username,
            password: user.password,
            kind: user.kind,
        };
        let returned = stored.clone();
        match self.username_pos(&stored.username) {
            Some(j) => {
                proof {
                    assert forall|q: int|
                        0 <= q < self.users@.len() && #[trigger] self.users@[q].username@
                            == stored.username@ implies q == j as int by {
                        if q != j as int {
                            assert(self.users@[q].username@ != self.users@[j as int].username@);
                        }
                    }
                }
                self.users.set(j, stored);
            },
            None => {
                self.users.push(stored);
            },
        }
        self.next_user_id = self.next_user_id + 1;
        self.dirty = true;
        returned
    }

    /// The user with this username, if any.
    pub fn user_get(&self, username: &String) -> (r: Option<&User>)
        ensures
            r matches Some(u) ==> u.username@ == username@ && exists|i: int|
                0 <= i < self.users@.len() && self.users@[i] == *u,
            r is None ==> !has_username(self.users@, username@),
    {
        match self.username_pos(username) {
            Some(j) => Some(&self.users[j]),
            None => None,
        }
    }

    /// The user with this id, if any.
    pub fn user_get_by_id(&self, id: u32) -> (r: Option<&User>)
        ensures
            r matches Some(u) ==> user_matches(self.users@, id, *u),
            r is None ==> !has_user_id(self.users@, id),
    {
        match self.user_pos(id) {
            Some(j) => Some(&self.users[j]),
            None => None,
        }
    }

    /// The user with this id, provided the account is a teacher.
    pub fn user_get_teacher_by_id(&self, id: u32) -> (r: Option<&User>)
        requires
            self.wf(),
        ensures
            r matches Some(u) ==> user_matches(self.users@, id, *u) && u.kind is Teacher,
            r is None ==> forall|i: int|
                0 <= i < self.users@.len() && #[trigger] self.users@[i].id == id ==> !(
                self.users@[i].kind is Teacher),
    {
        match self.user_pos(id) {
            Some(j) => {
                proof {
                    assert forall|i: int|
                        0 <= i < self.users@.len() && #[trigger] self.users@[i].id
                            == id implies i == j as int by {
                        if i != j as int {
                            assert(self.users@[i].id != self.users@[j as int].id);
                        }
                    }
                }
                match &self.users[j].kind {
                    UserKind::Teacher(_) => Some(&self.users[j]),
                    _ => None,
                }
            },
            None => None,
        }
    }

    /// The user with this id, provided the account is a student.
    pub fn user_get_student_by_id(&self, id: u32) -> (r: Option<&User>)
        requires
            self.wf(),
        ensures
            r matches Some(u) ==> user_matches(self.users@, id, *u) && u.kind is Student,
            r is None ==> forall|i: int|
                0 <= i < self.users@.len() && #[trigger] self.users@[i].id == id ==> !(
                self.users@[i].kind is Student),
    {
        match self.user_pos(id) {
            Some(j) => {
                proof {
                    assert forall|i: int|
                        0 <= i < self.users@.len() && #[trigger] self.users@[i].id
                            == id implies i == j as int by {
                        if i != j as int {
                            assert(self.users@[i].id != self.users@[j as int].id);
                        }
                    }
                }
                match &self.users[j].kind {
                    UserKind::Student(_) => Some(&self.users[j]),
                    _ => None,
                }
            },
            None => None,
        }
    }

    /// Replaces the stored account that carries this user's username. The
    /// caller hands back a (possibly modified) copy of a stored user; the
    /// username and id identify the row and stay as they are.
    pub fn user_update(&mut self, user: User)
        requires
            old(self).wf(),
            exists|i: int|
                0 <= i < old(self).users@.len() && #[trigger] old(self).users@[i].username@
                    == user.username@ && old(self).users@[i].id == user.id,
        ensures
            final(self).wf(),
            Store::same_but_users(*old(self), *final(self)),
            final(self).next_user_id == old(self).next_user_id,
            final(self).dirty,
            final(self).users@.len() == old(self).users@.len(),
            forall|j: int|
                0 <= j < old(self).users@.len() && #[trigger] old(self).users@[j].username@
                    != user.username@ ==> final(self).users@[j] == old(self).users@[j],
            forall|j: int|
                0 <= j < old(self).users@.len() && #[trigger] old(self).users@[j].username@
                    == user.username@ ==> final(self).users@[j] == user,
    {
        let j = match self.username_pos(&user.username) {
            Some(j) => j,
            None => {
                proof {
                    assert(false);
                }
                0
            },
        };
        proof {
            assert forall|q: int|
                0 <= q < self.users@.len() && #[trigger] self.users@[q].username@
                    == user.username@ implies q == j as int by {
                if q != j as int {
                    assert(self.users@[q].username@ != self.users@[j as int].username@);
                }
            }
            let w = choose|i: int|
                0 <= i < self.users@.len() && #[trigger] self.users@[i].username@ == user.username@
                    && self.users@[i].id == user.id;
            assert(w == j as int);
        }
        self.users.set(j, user);
        self.dirty = true;
    }

    /// Removes the named users, all of them or none; every session token
    /// bound to a removed account is revoked.
    pub fn user_remove(&mut self, ids: &Vec<u32>) -> (r: bool)
        requires
            old(self).wf(),
        ensures
            final(self).wf(),
            r == (forall|i: int|
                0 <= i < ids@.len() ==> has_user_id(old(self).users@, #[trigger] ids@[i])),
            !r ==> *final(self) == *old(self),
            r ==> Store::same_but_users_and_tokens(*old(self), *final(self)) && final(self).users@
                == old(self).users@.filter(|u: User| !ids@.contains(u.id)) && token_pairs(
                final(self).tokens,
            ) == purge_pairs(token_pairs(old(self).tokens), old(self).users@, ids@) && final(self).dirty,
    {
        let mut i: usize = 0;
        while i < ids.len()
            invariant
                *self == *old(self),
                i <= ids@.len(),
                forall|j: int| 0 <= j < i ==> has_user_id(self.users@, #[trigger] ids@[j]),
            decreases ids@.len() - i,
        {
            if self.user_pos(ids[i]).is_none() {
                return false;
            }
            i = i + 1;
        }
        let ghost pairs0 = token_pairs(old(self).tokens);
        let mut u: usize = 0;
        while u < self.users.len()
            invariant
                Store::same_but_tokens(*old(self), *self),
                !old(self).dirty ==> self.dirty == old(self).dirty,
                u <= self.users@.len(),
                old(self).wf(),
                self.users@ == old(self).users@,
                token_pairs_injective(token_pairs(self.tokens)),
                token_pairs(self.tokens) == purge_pairs(
                    pairs0,
                    old(self).users@.subrange(0, u as int),
                    ids@,
                ),
            decreases self.users@.len() - u,
        {
            let ghost cur = token_pairs(self.tokens);
            let ghost prefix = old(self).users@.subrange(0, u as int);
            let ghost prefix1 = old(self).users@.subrange(0, (u + 1) as int);
            proof {
                assert(prefix1 =~= prefix.push(old(self).users@[u as int]));
            }
            if ids_contain(ids, self.users[u].id) {
                let uname = self.users[u].username.clone();
                let removed = token_map_remove_by_right(&mut self.tokens, uname.as_str());
                proof {
                    let next = token_pairs(self.tokens);
                    let target = purge_pairs(pairs0, prefix1, ids@);
                    match removed {
                        Some(p) => {
                            assert forall|k: Seq<char>| #[trigger] target.dom().contains(k)
                                <==> next.dom().contains(k) by {
                                if next.dom().contains(k) {
                                    assert(cur.dom().contains(k) && k != p.0@);
                                    if cur[k] == uname@ {
                                        assert(cur[p.0@] == uname@);
                                        assert(k == p.0@);
                                    }
                                }
                                if target.dom().contains(k) {
                                    assert(pairs0.dom().contains(k));
                                    assert(!user_removed_name(old(self).users@.subrange(0, (u + 1) as int), ids@, pairs0[k]));
                                    assert(!user_removed_name(prefix, ids@, pairs0[k]));
                                    assert(cur.dom().contains(k));
                                    if pairs0[k] == uname@ {
                                        assert(prefix1[u as int] == old(self).users@[u as int]);
                                        assert(ids@.contains(prefix1[u as int].id));
                                        assert(prefix1[u as int].username@ == pairs0[k]);
                                        assert(user_removed_name(prefix1, ids@, pairs0[k]));
                                        assert(false);
                                    }
                                    assert(k != p.0@);
                                }
                            }
                            assert(next =~= target);
                        },
                        None => {
                            assert forall|k: Seq<char>| #[trigger] target.dom().contains(k)
                                <==> next.dom().contains(k) by {
                                if next.dom().contains(k) {
                                    assert(cur.dom().contains(k));
                                    if pairs0[k] == uname@ {
                                        assert(cur[k] == uname@);
                                        assert(false);
                                    }
                                }
                                if target.dom().contains(k) {
                                    assert(!user_removed_name(prefix, ids@, pairs0[k]));
                                    assert(cur.dom().contains(k));
                                }
                            }
                            assert(next =~= target);
                        },
                    }
                }
            } else {
                proof {
                    let target = purge_pairs(pairs0, prefix1, ids@);
                    assert forall|k: Seq<char>| #[trigger] target.dom().contains(k)
                        <==> cur.dom().contains(k) by {
                        if cur.dom().contains(k) {
                            assert(!user_removed_name(prefix, ids@, pairs0[k]));
                            assert(!user_removed_name(prefix1, ids@, pairs0[k]));
                        }
                    }
                    assert(cur =~= target);
                }
            }
            u = u + 1;
        }
        proof {
            assert(old(self).users@.subrange(0, old(self).users@.len() as int) =~= old(self).users@);
        }
        let ghost pred = |x: User| !ids@.contains(x.id);
        let mut out: Vec<User> = Vec::new();
        let mut k: usize = 0;
        while k < self.users.len()
            invariant
                Store::same_but_tokens(*old(self), *self),
                self.users@ == old(self).users@,
                token_pairs(self.tokens) == purge_pairs(pairs0, old(self).users@, ids@),
                token_pairs_injective(token_pairs(self.tokens)),
                k <= self.users@.len(),
                out@ == self.users@.subrange(0, k as int).filter(pred),
                pred == (|x: User| !ids@.contains(x.id)),
            decreases self.users@.len() - k,
        {
            let keep = !ids_contain(ids, self.users[k].id);
            proof {
                lemma_filter_push(self.users@.subrange(0, k as int), self.users@[k as int], pred);
                assert(self.users@.subrange(0, (k + 1) as int) =~= self.users@.subrange(
                    0,
                    k as int,
                ).push(self.users@[k as int]));
            }
            if keep {
                let row = self.users[k].clone();
                out.push(row);
            }
            k = k + 1;
        }
        proof {
            assert(self.users@.subrange(0, self.users@.len() as int) =~= self.users@);
            lemma_filter_mem(self.users@, pred);
            let distinct = |a: User, b: User| a.id != b.id && a.username@ != b.username@;
            lemma_filter_sorted(self.users@, pred, distinct);
            let f = self.users@.filter(pred);
            assert forall|a: int, b: int| 0 <= a < b < f.len() implies f[a].id != f[b].id
                && f[a].username@ != f[b].username@ by {
                assert(distinct(f[a], f[b]));
            }
            assert forall|a: int| 0 <= a < f.len() implies f[a].id < self.next_user_id by {
                let w = choose|w: int| 0 <= w < self.users@.len() && self.users@[w] == f[a];
                assert(self.users@[w].id < self.next_user_id);
            }
        }
        self.users = out;
        self.dirty = true;
        true
    }
}

} // verus!
