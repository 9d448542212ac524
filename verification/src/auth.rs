//! Session handling: logging in issues a fresh random 25-character
//! alphanumeric token bound one-to-one to the username; logging out revokes
//! a token; resolving maps a token back to its user.

use vstd::prelude::*;

use crate::store::{has_username, Store};
use crate::text::{ascii_bytes_to_string, bytes_to_chars};
use crate::tokens::{insert_pair, token_map_get_by_left, token_map_insert, token_map_remove_by_left,
    token_pairs, token_pairs_injective};
use crate::models::User;

verus! {

/// An ASCII digit, upper-case letter or lower-case letter.
pub open spec fn is_alphanumeric_byte(b: u8) -> bool {
    (48 <= b <= 57) || (65 <= b <= 90) || (97 <= b <= 122)
}

/// An ASCII digit or letter, as a character.
pub open spec fn is_token_char(c: char) -> bool {
    is_alphanumeric_byte(c as u8) && (c as u32) < 128
}

/// A well-shaped session token: 25 alphanumeric characters.
pub open spec fn is_token(s: Seq<char>) -> bool {
    &&& s.len() == 25
    &&& forall|i: int| 0 <= i < s.len() ==> is_token_char(#[trigger] s[i])
}

/// Relies on rand::Rng::sample with rand::distributions::Alphanumeric: every
/// sample is an ASCII digit or letter. Which one comes back is chance; the
/// contract promises only the range.
#[verifier::external_body]
fn random_alphanumeric() -> (r: u8)
    ensures
        is_alphanumeric_byte(r),
{
    rand::Rng::sample(&mut rand::thread_rng(), rand::distributions::Alphanumeric)
}

/// A fresh random session token.
fn random_token() -> (r: String)
    ensures
        is_token(r@),
{
    let mut bytes: Vec<u8> = Vec::new();
    let mut i: usize = 0;
    while i < 25
        invariant
            i <= 25,
            bytes@.len() == i,
            forall|j: int| 0 <= j < i ==> is_alphanumeric_byte(#[trigger] bytes@[j]),
        decreases 25 - i,
    {
        bytes.push(random_alphanumeric());
        i = i + 1;
    }
    let r = ascii_bytes_to_string(bytes);
    proof {
        assert forall|j: int| 0 <= j < r@.len() implies is_token_char(#[trigger] r@[j]) by {
            assert(r@[j] == bytes_to_chars(bytes@)[j]);
            assert(r@[j] == bytes@[j] as char);
        }
    }
    r
}

impl Store {
    /// Checks the password of the named account; on a match, issues a fresh
    /// token bound to the username and returns the user with it. A failed
    /// login changes nothing. The registry is one-to-one, so logging in
    /// again evicts the user's previous token — the registry invariant wins
    /// over keeping older sessions alive.
    pub fn auth_login(&mut self, username: &str, password: &str) -> (r: Option<(User, String)>)
        requires
            old(self).wf(),
        ensures
            final(self).wf(),
            r is Some <==> exists|i: int|
                0 <= i < old(self).users@.len() && #[trigger] old(self).users@[i].username@
                    == username@ && old(self).users@[i].password@ == password@,
            r is None ==> *final(self) == *old(self),
            r matches Some(p) ==> p.0.username@ == username@ && p.0.password@ == password@ && (
            exists|i: int|
                0 <= i < old(self).users@.len() && old(self).users@[i] == p.0) && is_token(p.1@)
                && Store::same_but_tokens(*old(self), *final(self)) && token_pairs(
                final(self).tokens,
            ) == insert_pair(token_pairs(old(self).tokens), p.1@, username@) && final(self).dirty,
    {
        let uname = username.to_owned();
        let j = match self.username_pos(&uname) {
            Some(j) => j,
            None => {
                return None;
            },
        };
        let pw = password.to_owned();
        if !(self.users[j].password == pw) {
            proof {
                assert forall|i: int|
                    0 <= i < self.users@.len() && #[trigger] self.users@[i].username@
                        == username@ implies self.users@[i].password@ != password@ by {
                    if i != j as int {
                        assert(self.users@[i].username@ != self.users@[j as int].username@);
                    }
                }
            }
            return None;
        }
        let token = random_token();
        let user = self.users[j].clone();
        let ghost pairs0 = token_pairs(self.tokens);
        token_map_insert(&mut self.tokens, token.clone(), uname);
        self.dirty = true;
        proof {
            let pairs1 = token_pairs(self.tokens);
            assert forall|k1: Seq<char>, k2: Seq<char>|
                pairs1.dom().contains(k1) && pairs1.dom().contains(k2) && #[trigger] pairs1[k1]
                    == #[trigger] pairs1[k2] implies k1 == k2 by {
                if k1 != token@ && k2 != token@ {
                } else if k1 == token@ && k2 != token@ {
                    assert(pairs1[k2] != username@);
                } else if k2 == token@ && k1 != token@ {
                    assert(pairs1[k1] != username@);
                }
            }
        }
        Some((user, token))
    }

    /// Revokes the token, reporting whether it was known. The store is
    /// marked dirty either way, as the original engine does.
    pub fn auth_logout(&mut self, token: &str) -> (r: bool)
        requires
            old(self).wf(),
        ensures
            final(self).wf(),
            r == token_pairs(old(self).tokens).dom().contains(token@),
            Store::same_but_tokens(*old(self), *final(self)),
            token_pairs(final(self).tokens) == token_pairs(old(self).tokens).remove(token@),
            final(self).dirty,
    {
        let removed = token_map_remove_by_left(&mut self.tokens, token);
        self.dirty = true;
        removed.is_some()
    }

    /// The user a live token belongs to: the token resolves to a username
    /// and the username to an account; absence at either step gives nothing.
    pub fn auth_get_user(&self, token: &str) -> (r: Option<&User>)
        ensures
            r is Some <==> (token_pairs(self.tokens).dom().contains(token@) && has_username(
                self.users@,
                token_pairs(self.tokens)[token@],
            )),
            r matches Some(u) ==> u.username@ == token_pairs(self.tokens)[token@] && exists|i: int|
                0 <= i < self.users@.len() && self.users@[i] == *u,
    {
        match token_map_get_by_left(&self.tokens, token) {
            Some(uname) => self.user_get(uname),
            None => None,
        }
    }
}

} // verus!
