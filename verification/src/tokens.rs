//! The session-token registry: a bidirectional map from opaque tokens to
//! usernames, kept in an outside bimap. Its contents are modeled as a
//! `Map<Seq<char>, Seq<char>>` from token to username; every method the
//! engine calls is wrapped with a contract over that model.

use vstd::prelude::*;

verus! {

#[verifier::external_type_specification]
#[verifier::external_body]
#[verifier::reject_recursive_types(L)]
#[verifier::reject_recursive_types(R)]
#[verifier::reject_recursive_types(LS)]
#[verifier::reject_recursive_types(RS)]
pub struct ExBiHashMap<L, R, LS, RS>(bimap::hash::BiHashMap<L, R, LS, RS>);

/// What the registry holds: each pair maps a session token to a username.
pub uninterp spec fn token_pairs(m: bimap::BiMap<String, String>) -> Map<Seq<char>, Seq<char>>;

/// The empty registry model.
pub open spec fn empty_pairs() -> Map<Seq<char>, Seq<char>> {
    Map::empty()
}

/// The registry model after an overwriting insert of `left -> right`: the
/// new pair is there, and any pair with the same token or the same username
/// is gone.
pub open spec fn insert_pair(p: Map<Seq<char>, Seq<char>>, left: Seq<char>, right: Seq<char>) -> Map<
    Seq<char>,
    Seq<char>,
> {
    Map::new(
        |k: Seq<char>| k == left || (p.dom().contains(k) && k != left && p[k] != right),
        |k: Seq<char>|
            if k == left {
                right
            } else {
                p[k]
            },
    )
}

/// No two tokens resolve to the same username.
pub open spec fn token_pairs_injective(p: Map<Seq<char>, Seq<char>>) -> bool {
    forall|k1: Seq<char>, k2: Seq<char>|
        p.dom().contains(k1) && p.dom().contains(k2) && #[trigger] p[k1] == #[trigger] p[k2] ==> k1
            == k2
}

/// Relies on bimap::BiHashMap::new: a new bimap holds no pairs.
#[verifier::external_body]
pub fn token_map_new() -> (r: bimap::BiMap<String, String>)
    ensures
        token_pairs(r) == empty_pairs(),
{
    bimap::BiMap::new()
}

/// Relies on bimap::BiHashMap::insert: inserts the given pair, first removing
/// any pair with the same left value and any pair with the same right value.
#[verifier::external_body]
pub fn token_map_insert(m: &mut bimap::BiMap<String, String>, left: String, right: String)
    ensures
        token_pairs(*final(m)) == insert_pair(token_pairs(*old(m)), left@, right@),
{
    m.insert(left, right);
}

/// Relies on bimap::BiHashMap::get_by_left: returns the right value paired
/// with the given left value, if one is.
#[verifier::external_body]
pub fn token_map_get_by_left<'a>(m: &'a bimap::BiMap<String, String>, left: &str) -> (r: Option<
    &'a String,
>)
    ensures
        r is Some <==> token_pairs(*m).dom().contains(left@),
        r matches Some(v) ==> v@ == token_pairs(*m)[left@],
{
    m.get_by_left(left)
}

/// Relies on bimap::BiHashMap::remove_by_left: removes and returns the pair
/// with the given left value, if one is there.
#[verifier::external_body]
pub fn token_map_remove_by_left(m: &mut bimap::BiMap<String, String>, left: &str) -> (r: Option<
    (String, String),
>)
    ensures
        r is Some <==> token_pairs(*old(m)).dom().contains(left@),
        token_pairs(*final(m)) == token_pairs(*old(m)).remove(left@),
        r matches Some(p) ==> p.0@ == left@ && token_pairs(*old(m)).dom().contains(left@) && p.1@
            == token_pairs(*old(m))[left@],
{
    m.remove_by_left(left)
}

/// Relies on bimap::BiHashMap::remove_by_right: removes and returns a pair
/// with the given right value, if one is there.
#[verifier::external_body]
pub fn token_map_remove_by_right(m: &mut bimap::BiMap<String, String>, right: &str) -> (r: Option<
    (String, String),
>)
    ensures
        r is Some <==> exists|k: Seq<char>|
            token_pairs(*old(m)).dom().contains(k) && token_pairs(*old(m))[k] == right@,
        r matches Some(p) ==> p.1@ == right@ && token_pairs(*old(m)).dom().contains(p.0@)
            && token_pairs(*old(m))[p.0@] == right@ && token_pairs(*final(m)) == token_pairs(
            *old(m),
        ).remove(p.0@),
        r is None ==> token_pairs(*final(m)) == token_pairs(*old(m)),
{
    m.remove_by_right(right)
}

/// Relies on bimap::BiHashMap::iter: hands out every pair once. The order
/// of a hash-map walk is not a function of the contents, so no order is
/// stated: each listed pair is in the registry, no token repeats, and every
/// registered token is listed.
#[verifier::external_body]
pub fn token_map_entries(m: &bimap::BiMap<String, String>) -> (r: Vec<(String, String)>)
    ensures
        forall|i: int|
            0 <= i < r@.len() ==> token_pairs(*m).dom().contains((#[trigger] r@[i]).0@)
                && token_pairs(*m)[r@[i].0@] == r@[i].1@,
        forall|i: int, j: int| 0 <= i < j < r@.len() ==> (#[trigger] r@[i]).0@ != (#[trigger] r@[j]).0@,
        forall|k: Seq<char>|
            token_pairs(*m).dom().contains(k) ==> exists|i: int| 0 <= i < r@.len() && (#[trigger] r@[i]).0@ == k,
{
    m.iter().map(|(l, r)| (l.clone(), r.clone())).collect()
}

} // verus!
