//! The credential store: users, API keys, crates and ownership edges.
//!
//! The store is an in-memory table set with the same operations and the
//! same observable behaviour as the relational backend it stands in for:
//! unique user and key names, owner-scoped key revocation, anti-enumeration
//! collapse of all verification failures, and an idempotent bootstrap.

use vstd::prelude::*;
use vstd::utf8::encode_utf8;

use crate::crypto::{argon2_verifies, hash_secret, random_secret, verify_secret};
use crate::encoding::{b64_encode, decode_token, encode_token, token_parts};

verus! {

/// Coarse authorization level attached to a user.
#[derive(Clone, Copy, Debug, PartialEq, Eq, Structural)]
pub enum UserRole {
    Viewer,
    Publisher,
    Administrator,
}

pub open spec fn role_code_spec(role: UserRole) -> i32 {
    match role {
        UserRole::Viewer => 0,
        UserRole::Publisher => 1,
        UserRole::Administrator => 2,
    }
}

/// The integer column value a role is stored as.
pub fn role_code(role: UserRole) -> (code: i32)
    ensures
        code == role_code_spec(role),
{
    match role {
        UserRole::Viewer => 0,
        UserRole::Publisher => 1,
        UserRole::Administrator => 2,
    }
}

/// Reads a role back from its stored integer column value.
pub fn role_from_code(code: i32) -> (role: Option<UserRole>)
    ensures
        match role {
            Some(r) => role_code_spec(r) == code,
            None => forall|r: UserRole| role_code_spec(r) != code,
        },
{
    match code {
        0 => Some(UserRole::Viewer),
        1 => Some(UserRole::Publisher),
        2 => Some(UserRole::Administrator),
        _ => None,
    }
}

/// A stored user row. The password hash is always a self-describing hash
/// string produced by the hashing scheme, never raw material.
#[derive(Debug)]
pub struct User {
    pub id: i32,
    pub name: String,
    pub password_hash: String,
    pub role: UserRole,
}

/// The mathematical value of a user row.
#[verifier::ext_equal]
pub struct UserView {
    pub id: i32,
    pub name: Seq<char>,
    pub password_hash: Seq<char>,
    pub role: UserRole,
}

pub open spec fn user_view(u: User) -> UserView {
    UserView { id: u.id, name: u.name@, password_hash: u.password_hash@, role: u.role }
}

pub open spec fn user_views(users: Seq<User>) -> Seq<UserView> {
    users.map_values(|u: User| user_view(u))
}

impl Clone for User {
    fn clone(&self) -> (r: Self)
        ensures
            user_view(r) == user_view(*self),
    {
        User {
            id: self.id,
            name: self.name.clone(),
            password_hash: self.password_hash.clone(),
            role: self.role,
        }
    }
}

/// A stored API key row. The `key` column holds a hash of the secret, never
/// the secret itself.
#[derive(Debug)]
pub struct ApiKey {
    pub id: i32,
    pub name: String,
    pub uid: i32,
    pub key: String,
}

/// The mathematical value of an API key row.
#[verifier::ext_equal]
pub struct ApiKeyView {
    pub id: i32,
    pub name: Seq<char>,
    pub uid: i32,
    pub key: Seq<char>,
}

pub open spec fn key_view(k: ApiKey) -> ApiKeyView {
    ApiKeyView { id: k.id, name: k.name@, uid: k.uid, key: k.key@ }
}

pub open spec fn key_views(keys: Seq<ApiKey>) -> Seq<ApiKeyView> {
    keys.map_values(|k: ApiKey| key_view(k))
}

impl Clone for ApiKey {
    fn clone(&self) -> (r: Self)
        ensures
            key_view(r) == key_view(*self),
    {
        ApiKey { id: self.id, name: self.name.clone(), uid: self.uid, key: self.key.clone() }
    }
}

/// A stored crate row.
#[derive(Debug)]
pub struct Crate {
    pub id: i32,
    pub name: String,
}

/// The mathematical value of a crate row.
#[verifier::ext_equal]
pub struct CrateView {
    pub id: i32,
    pub name: Seq<char>,
}

pub open spec fn crate_view(c: Crate) -> CrateView {
    CrateView { id: c.id, name: c.name@ }
}

pub open spec fn crate_views(crates: Seq<Crate>) -> Seq<CrateView> {
    crates.map_values(|c: Crate| crate_view(c))
}

impl Clone for Crate {
    fn clone(&self) -> (r: Self)
        ensures
            crate_view(r) == crate_view(*self),
    {
        Crate { id: self.id, name: self.name.clone() }
    }
}

/// An ownership edge: the user may publish and manage the crate.
#[derive(Clone, Copy, Debug, PartialEq, Eq, Structural)]
pub struct Owner {
    pub cid: i32,
    pub uid: i32,
}

/// How a store operation fails.
#[derive(Clone, Copy, Debug, PartialEq, Eq, Structural)]
pub enum DatabaseError {
    /// The underlying store failed.
    SqlError,
    /// Hashing failed, or a presented secret did not match.
    PWHashError,
    /// Malformed input, such as a token that does not decode.
    InvalidInput,
    /// A unique column value was already taken.
    UniqueAlreadyExists,
    /// The store's location could not be understood.
    InvalidUri,
}

impl DatabaseError {
    /// A short description of the failure, as a log line would show it.
    pub fn message(&self) -> (m: &'static str)
        ensures
            m@ == match self {
                DatabaseError::SqlError => "SqlError"@,
                DatabaseError::PWHashError => "HashError"@,
                DatabaseError::InvalidInput => "Invalid input"@,
                DatabaseError::UniqueAlreadyExists => "Unique value already exists"@,
                DatabaseError::InvalidUri => "Invalid URI"@,
            },
    {
        match self {
            DatabaseError::SqlError => "SqlError",
            DatabaseError::PWHashError => "HashError",
            DatabaseError::InvalidInput => "Invalid input",
            DatabaseError::UniqueAlreadyExists => "Unique value already exists",
            DatabaseError::InvalidUri => "Invalid URI",
        }
    }
}

/// The index of the first user with the given name.
pub open spec fn find_user_by_name(users: Seq<UserView>, name: Seq<char>) -> Option<int>
    decreases users.len(),
{
    if users.len() == 0 {
        None
    } else if users[0].name == name {
        Some(0int)
    } else {
        match find_user_by_name(users.drop_first(), name) {
            None => None,
            Some(i) => Some(i + 1),
        }
    }
}

/// The index of the first user with the given id.
pub open spec fn find_user_by_id(users: Seq<UserView>, id: i32) -> Option<int>
    decreases users.len(),
{
    if users.len() == 0 {
        None
    } else if users[0].id == id {
        Some(0int)
    } else {
        match find_user_by_id(users.drop_first(), id) {
            None => None,
            Some(i) => Some(i + 1),
        }
    }
}

/// The index of the first API key with the given name.
pub open spec fn find_key_by_name(keys: Seq<ApiKeyView>, name: Seq<char>) -> Option<int>
    decreases keys.len(),
{
    if keys.len() == 0 {
        None
    } else if keys[0].name == name {
        Some(0int)
    } else {
        match find_key_by_name(keys.drop_first(), name) {
            None => None,
            Some(i) => Some(i + 1),
        }
    }
}

/// The index of the first crate with the given name.
pub open spec fn find_crate_by_name(crates: Seq<CrateView>, name: Seq<char>) -> Option<int>
    decreases crates.len(),
{
    if crates.len() == 0 {
        None
    } else if crates[0].name == name {
        Some(0int)
    } else {
        match find_crate_by_name(crates.drop_first(), name) {
            None => None,
            Some(i) => Some(i + 1),
        }
    }
}

/// `find_user_by_name` yields the first match, and `None` only when no user
/// carries the name.
pub proof fn lemma_find_user_by_name_spec(users: Seq<UserView>, name: Seq<char>)
    ensures
        match find_user_by_name(users, name) {
            Some(i) => 0 <= i < users.len() && users[i].name == name && forall|j: int|
                0 <= j < i ==> users[j].name != name,
            None => forall|j: int| 0 <= j < users.len() ==> users[j].name != name,
        },
    decreases users.len(),
{
    if users.len() > 0 && users[0].name != name {
        lemma_find_user_by_name_spec(users.drop_first(), name);
        assert(forall|j: int| 1 <= j < users.len() ==> users[j] == users.drop_first()[j - 1]);
    }
}

/// `find_user_by_id` yields the first match, and `None` only when no user
/// carries the id.
pub proof fn lemma_find_user_by_id_spec(users: Seq<UserView>, id: i32)
    ensures
        match find_user_by_id(users, id) {
            Some(i) => 0 <= i < users.len() && users[i].id == id && forall|j: int|
                0 <= j < i ==> users[j].id != id,
            None => forall|j: int| 0 <= j < users.len() ==> users[j].id != id,
        },
    decreases users.len(),
{
    if users.len() > 0 && users[0].id != id {
        lemma_find_user_by_id_spec(users.drop_first(), id);
        assert(forall|j: int| 1 <= j < users.len() ==> users[j] == users.drop_first()[j - 1]);
    }
}

/// `find_key_by_name` yields the first match, and `None` only when no key
/// carries the name.
pub proof fn lemma_find_key_by_name_spec(keys: Seq<ApiKeyView>, name: Seq<char>)
    ensures
        match find_key_by_name(keys, name) {
            Some(i) => 0 <= i < keys.len() && keys[i].name == name && forall|j: int|
                0 <= j < i ==> keys[j].name != name,
            None => forall|j: int| 0 <= j < keys.len() ==> keys[j].name != name,
        },
    decreases keys.len(),
{
    if keys.len() > 0 && keys[0].name != name {
        lemma_find_key_by_name_spec(keys.drop_first(), name);
        assert(forall|j: int| 1 <= j < keys.len() ==> keys[j] == keys.drop_first()[j - 1]);
    }
}

/// `find_crate_by_name` yields the first match, and `None` only when no
/// crate carries the name.
pub proof fn lemma_find_crate_by_name_spec(crates: Seq<CrateView>, name: Seq<char>)
    ensures
        match find_crate_by_name(crates, name) {
            Some(i) => 0 <= i < crates.len() && crates[i].name == name && forall|j: int|
                0 <= j < i ==> crates[j].name != name,
            None => forall|j: int| 0 <= j < crates.len() ==> crates[j].name != name,
        },
    decreases crates.len(),
{
    if crates.len() > 0 && crates[0].name != name {
        lemma_find_crate_by_name_spec(crates.drop_first(), name);
        assert(forall|j: int| 1 <= j < crates.len() ==> crates[j] == crates.drop_first()[j - 1]);
    }
}

/// The keys owned by the given user, in stored order.
pub open spec fn keys_of_user(keys: Seq<ApiKeyView>, uid: i32) -> Seq<ApiKeyView>
    decreases keys.len(),
{
    if keys.len() == 0 {
        Seq::empty()
    } else {
        let rest = keys_of_user(keys.drop_last(), uid);
        if keys.last().uid == uid {
            rest.push(keys.last())
        } else {
            rest
        }
    }
}

/// Whether some stored key owned by `uid` verifies the presented secret.
pub open spec fn some_key_matches(keys: Seq<ApiKeyView>, uid: i32, secret: Seq<u8>) -> bool {
    exists|i: int|
        #![trigger keys[i]]
        0 <= i < keys.len() && keys[i].uid == uid && argon2_verifies(secret, keys[i].key)
}

/// The key table after revoking `(id, uid)`: every key matching both the
/// key id and the owning user id is gone, everything else keeps its place.
pub open spec fn keys_after_revoke(keys: Seq<ApiKeyView>, id: i32, uid: i32) -> Seq<ApiKeyView>
    decreases keys.len(),
{
    if keys.len() == 0 {
        Seq::empty()
    } else {
        let rest = keys_after_revoke(keys.drop_last(), id, uid);
        if keys.last().id == id && keys.last().uid == uid {
            rest
        } else {
            rest.push(keys.last())
        }
    }
}

/// The edge table after removing `(cid, uid)`: every matching edge is
/// gone, everything else keeps its place.
pub open spec fn owners_after_remove(owners: Seq<Owner>, cid: i32, uid: i32) -> Seq<Owner>
    decreases owners.len(),
{
    if owners.len() == 0 {
        Seq::empty()
    } else {
        let rest = owners_after_remove(owners.drop_last(), cid, uid);
        if owners.last().cid == cid && owners.last().uid == uid {
            rest
        } else {
            rest.push(owners.last())
        }
    }
}

/// Revocation keeps exactly the keys that do not match `(id, uid)`.
pub proof fn lemma_keys_after_revoke_membership(keys: Seq<ApiKeyView>, id: i32, uid: i32)
    ensures
        forall|x: ApiKeyView| #[trigger]
            keys_after_revoke(keys, id, uid).contains(x) ==> keys.contains(x) && !(x.id == id
                && x.uid == uid),
        forall|l: int|
            #![trigger keys[l]]
            0 <= l < keys.len() && !(keys[l].id == id && keys[l].uid == uid)
                ==> keys_after_revoke(keys, id, uid).contains(keys[l]),
    decreases keys.len(),
{
    if keys.len() > 0 {
        lemma_keys_after_revoke_membership(keys.drop_last(), id, uid);
        let rest = keys_after_revoke(keys.drop_last(), id, uid);
        let whole = keys_after_revoke(keys, id, uid);
        assert forall|x: ApiKeyView| #[trigger] whole.contains(x) implies keys.contains(x) && !(
        x.id == id && x.uid == uid) by {
            if rest.contains(x) {
                assert(keys.drop_last().contains(x));
                let l = choose|l: int|
                    0 <= l < keys.drop_last().len() && keys.drop_last()[l] == x;
                assert(keys[l] == x);
            } else {
                assert(x == keys.last());
            }
        }
        assert forall|l: int|
            #![trigger keys[l]]
            0 <= l < keys.len() && !(keys[l].id == id && keys[l].uid
                == uid) implies whole.contains(keys[l]) by {
            if l < keys.len() - 1 {
                assert(keys.drop_last()[l] == keys[l]);
                assert(rest.contains(keys.drop_last()[l]));
                let m = choose|m: int| 0 <= m < rest.len() && rest[m] == keys[l];
                assert(whole[m] == keys[l]);
            } else {
                assert(whole.last() == keys.last());
            }
        }
    }
}

/// Revocation preserves pairwise-distinct key names and ids.
pub proof fn lemma_keys_after_revoke_distinct(keys: Seq<ApiKeyView>, id: i32, uid: i32)
    requires
        forall|i: int, j: int|
            #![trigger keys[i], keys[j]]
            0 <= i < j < keys.len() ==> keys[i].name != keys[j].name && keys[i].id != keys[j].id,
    ensures
        forall|i: int, j: int|
            #![trigger keys_after_revoke(keys, id, uid)[i], keys_after_revoke(keys, id, uid)[j]]
            0 <= i < j < keys_after_revoke(keys, id, uid).len() ==> keys_after_revoke(
                keys,
                id,
                uid,
            )[i].name != keys_after_revoke(keys, id, uid)[j].name && keys_after_revoke(
                keys,
                id,
                uid,
            )[i].id != keys_after_revoke(keys, id, uid)[j].id,
    decreases keys.len(),
{
    if keys.len() > 0 {
        let prefix = keys.drop_last();
        assert(forall|i: int, j: int|
            #![trigger prefix[i], prefix[j]]
            0 <= i < j < prefix.len() ==> prefix[i].name != prefix[j].name && prefix[i].id
                != prefix[j].id);
        lemma_keys_after_revoke_distinct(prefix, id, uid);
        lemma_keys_after_revoke_membership(prefix, id, uid);
        let rest = keys_after_revoke(prefix, id, uid);
        let whole = keys_after_revoke(keys, id, uid);
        if !(keys.last().id == id && keys.last().uid == uid) {
            assert(whole == rest.push(keys.last()));
            assert forall|i: int, j: int|
                #![trigger whole[i], whole[j]]
                0 <= i < j < whole.len() implies whole[i].name != whole[j].name && whole[i].id
                != whole[j].id by {
                if j == whole.len() - 1 {
                    assert(whole[j] == keys.last());
                    assert(whole[i] == rest[i]);
                    assert(rest.contains(rest[i]));
                    let l = choose|l: int| 0 <= l < prefix.len() && prefix[l] == rest[i];
                    assert(keys[l] == rest[i]);
                    assert(keys[l].name != keys.last().name && keys[l].id != keys.last().id);
                } else {
                    assert(whole[i] == rest[i] && whole[j] == rest[j]);
                    assert(keys_after_revoke(prefix, id, uid)[i] == rest[i]);
                    assert(keys_after_revoke(prefix, id, uid)[j] == rest[j]);
                }
            }
        }
    }
}

/// The user a presented bearer token resolves to: the token must decode and
/// split, name an existing user, and carry a secret that one of that user's
/// stored keys verifies. Every failure yields `None`, never an error.
pub open spec fn token_user_index(
    users: Seq<UserView>,
    keys: Seq<ApiKeyView>,
    token: Seq<char>,
) -> Option<int> {
    match token_parts(token) {
        None => None,
        Some(parts) => match find_user_by_name(users, parts.0) {
            None => None,
            Some(i) => if some_key_matches(keys, users[i].id, parts.1) {
                Some(i)
            } else {
                None
            },
        },
    }
}

/// The users an owners-table join lists for the given crate id, in edge
/// order, skipping edges whose user is gone.
pub open spec fn join_owners(owners: Seq<Owner>, users: Seq<UserView>, cid: i32) -> Seq<UserView>
    decreases owners.len(),
{
    if owners.len() == 0 {
        Seq::empty()
    } else {
        let rest = join_owners(owners.drop_last(), users, cid);
        let edge = owners.last();
        if edge.cid == cid {
            match find_user_by_id(users, edge.uid) {
                Some(i) => rest.push(users[i]),
                None => rest,
            }
        } else {
            rest
        }
    }
}

/// The in-memory credential store: the same interface and observable
/// behaviour as the relational backend, backed by plain vectors.
#[derive(Debug)]
pub struct TestDatabase {
    pub users: Vec<User>,
    pub api_keys: Vec<ApiKey>,
    pub crates: Vec<Crate>,
    pub owners: Vec<Owner>,
    pub next_user_id: i32,
    pub next_key_id: i32,
    pub next_crate_id: i32,
}

impl TestDatabase {
    pub open spec fn users_view(&self) -> Seq<UserView> {
        user_views(self.users@)
    }

    pub open spec fn keys_view(&self) -> Seq<ApiKeyView> {
        key_views(self.api_keys@)
    }

    pub open spec fn crates_view(&self) -> Seq<CrateView> {
        crate_views(self.crates@)
    }

    /// The store's invariant: names and ids unique where the schema says
    /// so, and every id below its table's next free id.
    pub open spec fn wf(&self) -> bool {
        &&& 1 <= self.next_user_id
        &&& 1 <= self.next_key_id
        &&& 1 <= self.next_crate_id
        &&& forall|i: int, j: int|
            0 <= i < j < self.users_view().len() ==> #[trigger] self.users_view()[i].name
                != #[trigger] self.users_view()[j].name && self.users_view()[i].id
                != self.users_view()[j].id
        &&& forall|i: int|
            0 <= i < self.users_view().len() ==> 1 <= #[trigger] self.users_view()[i].id
                < self.next_user_id
        &&& forall|i: int, j: int|
            0 <= i < j < self.keys_view().len() ==> #[trigger] self.keys_view()[i].name
                != #[trigger] self.keys_view()[j].name && self.keys_view()[i].id
                != self.keys_view()[j].id
        &&& forall|i: int|
            0 <= i < self.keys_view().len() ==> 1 <= #[trigger] self.keys_view()[i].id
                < self.next_key_id
        &&& forall|i: int, j: int|
            0 <= i < j < self.crates_view().len() ==> #[trigger] self.crates_view()[i].id
                != #[trigger] self.crates_view()[j].id
        &&& forall|i: int|
            0 <= i < self.crates_view().len() ==> 1 <= #[trigger] self.crates_view()[i].id
                < self.next_crate_id
    }

    /// A fresh, empty store.
    pub fn new() -> (db: TestDatabase)
        ensures
            db.wf(),
            db.users_view().len() == 0,
            db.keys_view().len() == 0,
            db.crates_view().len() == 0,
            db.owners@.len() == 0,
    {
        TestDatabase {
            users: Vec::new(),
            api_keys: Vec::new(),
            crates: Vec::new(),
            owners: Vec::new(),
            next_user_id: 1,
            next_key_id: 1,
            next_crate_id: 1,
        }
    }

    /// The number of stored user rows.
    pub fn user_count(&self) -> (n: usize)
        ensures
            n == self.users_view().len(),
    {
        self.users.len()
    }

    /// The number of stored API key rows.
    pub fn api_key_count(&self) -> (n: usize)
        ensures
            n == self.keys_view().len(),
    {
        self.api_keys.len()
    }

    /// The number of stored ownership edges.
    pub fn owner_count(&self) -> (n: usize)
        ensures
            n == self.owners@.len(),
    {
        self.owners.len()
    }

    /// Scans the user table for a name, front to back.
    fn lookup_user_by_name(&self, name: &String) -> (r: Option<usize>)
        ensures
            match r {
                Some(i) => find_user_by_name(self.users_view(), name@) == Some(i as int),
                None => find_user_by_name(self.users_view(), name@) is None,
            },
    {
        proof {
            lemma_find_user_by_name_spec(self.users_view(), name@);
        }
        let len = self.users.len();
        let mut i: usize = 0;
        while i < len
            invariant
                i <= len == self.users_view().len(),
                forall|j: int| 0 <= j < i ==> self.users_view()[j].name != name@,
                match find_user_by_name(self.users_view(), name@) {
                    Some(k) => 0 <= k < self.users_view().len() && self.users_view()[k].name
                        == name@ && forall|j: int|
                        0 <= j < k ==> self.users_view()[j].name != name@,
                    None => forall|j: int|
                        0 <= j < self.users_view().len() ==> self.users_view()[j].name != name@,
                },
            decreases len - i,
        {
            if self.users[i].name.eq(name) {
                proof {
                    assert(self.users@[i as int].name@ == name@);
                    assert(self.users_view()[i as int].name == name@);
                    assert(find_user_by_name(self.users_view(), name@) == Some(i as int));
                }
                return Some(i);
            }
            i = i + 1;
        }
        None
    }

    /// Scans the user table for an id, front to back.
    fn lookup_user_by_id(&self, id: i32) -> (r: Option<usize>)
        ensures
            match r {
                Some(i) => find_user_by_id(self.users_view(), id) == Some(i as int),
                None => find_user_by_id(self.users_view(), id) is None,
            },
    {
        proof {
            lemma_find_user_by_id_spec(self.users_view(), id);
        }
        let len = self.users.len();
        let mut i: usize = 0;
        while i < len
            invariant
                i <= len == self.users_view().len(),
                forall|j: int| 0 <= j < i ==> self.users_view()[j].id != id,
                match find_user_by_id(self.users_view(), id) {
                    Some(k) => 0 <= k < self.users_view().len() && self.users_view()[k].id == id
                        && forall|j: int| 0 <= j < k ==> self.users_view()[j].id != id,
                    None => forall|j: int|
                        0 <= j < self.users_view().len() ==> self.users_view()[j].id != id,
                },
            decreases len - i,
        {
            if self.users[i].id == id {
                proof {
                    assert(self.users_view()[i as int].id == id);
                    assert(find_user_by_id(self.users_view(), id) == Some(i as int));
                }
                return Some(i);
            }
            i = i + 1;
        }
        None
    }

    /// Looks a user up by name; absence is not an error.
    pub fn get_user(&self, name: String) -> (r: Result<Option<User>, DatabaseError>)
        ensures
            r matches Ok(found) && match find_user_by_name(self.users_view(), name@) {
                Some(i) => found matches Some(u) && user_view(u) == self.users_view()[i],
                None => found is None,
            },
    {
        proof {
            lemma_find_user_by_name_spec(self.users_view(), name@);
        }
        match self.lookup_user_by_name(&name) {
            Some(i) => Ok(Some(self.users[i].clone())),
            None => Ok(None),
        }
    }

    /// Looks a user up by id; absence is not an error.
    pub fn get_user_by_id(&self, id: i32) -> (r: Result<Option<User>, DatabaseError>)
        ensures
            r matches Ok(found) && match find_user_by_id(self.users_view(), id) {
                Some(i) => found matches Some(u) && user_view(u) == self.users_view()[i],
                None => found is None,
            },
    {
        proof {
            lemma_find_user_by_id_spec(self.users_view(), id);
        }
        match self.lookup_user_by_id(id) {
            Some(i) => Ok(Some(self.users[i].clone())),
            None => Ok(None),
        }
    }

    /// All keys owned by a user, in insertion order.
    pub fn get_api_keys(&self, uid: i32) -> (r: Result<Vec<ApiKey>, DatabaseError>)
        ensures
            r matches Ok(keys) && key_views(keys@) == keys_of_user(self.keys_view(), uid),
    {
        let len = self.api_keys.len();
        let mut out: Vec<ApiKey> = Vec::new();
        let mut i: usize = 0;
        while i < len
            invariant
                i <= len == self.keys_view().len(),
                key_views(out@) == keys_of_user(self.keys_view().take(i as int), uid),
            decreases len - i,
        {
            let ghost prev = self.keys_view().take(i as int);
            let ghost el = self.keys_view()[i as int];
            if self.api_keys[i].uid == uid {
                out.push(self.api_keys[i].clone());
            }
            proof {
                assert(self.keys_view().take(i + 1) =~= prev.push(el));
                assert(prev.push(el).drop_last() =~= prev);
                assert(keys_of_user(self.keys_view().take(i + 1), uid) == keys_of_user(
                    prev.push(el),
                    uid,
                ));
                if el.uid == uid {
                    assert(key_views(out@) =~= keys_of_user(prev, uid).push(el));
                }
                assert(key_views(out@) == keys_of_user(self.keys_view().take(i + 1), uid));
            }
            i = i + 1;
        }
        proof {
            assert(self.keys_view().take(len as int) =~= self.keys_view());
        }
        Ok(out)
    }

    /// Scans the key table for a key name, front to back.
    fn lookup_key_by_name(&self, name: &String) -> (r: Option<usize>)
        ensures
            match r {
                Some(i) => find_key_by_name(self.keys_view(), name@) == Some(i as int),
                None => find_key_by_name(self.keys_view(), name@) is None,
            },
    {
        proof {
            lemma_find_key_by_name_spec(self.keys_view(), name@);
        }
        let len = self.api_keys.len();
        let mut i: usize = 0;
        while i < len
            invariant
                i <= len == self.keys_view().len(),
                forall|j: int| 0 <= j < i ==> self.keys_view()[j].name != name@,
                match find_key_by_name(self.keys_view(), name@) {
                    Some(k) => 0 <= k < self.keys_view().len() && self.keys_view()[k].name == name@
                        && forall|j: int| 0 <= j < k ==> self.keys_view()[j].name != name@,
                    None => forall|j: int|
                        0 <= j < self.keys_view().len() ==> self.keys_view()[j].name != name@,
                },
            decreases len - i,
        {
            if self.api_keys[i].name.eq(name) {
                proof {
                    assert(self.keys_view()[i as int].name == name@);
                    assert(find_key_by_name(self.keys_view(), name@) == Some(i as int));
                }
                return Some(i);
            }
            i = i + 1;
        }
        None
    }

    /// Creates a user: rejects a taken name, hashes the password with a
    /// fresh salt, stores the row, and returns it.
    pub fn create_user(&mut self, name: String, password: String, role: UserRole) -> (r: Result<
        User,
        DatabaseError,
    >)
        requires
            old(self).wf(),
        ensures
            final(self).wf(),
            r matches Err(e) ==> *final(self) == *old(self) && (e
                == DatabaseError::UniqueAlreadyExists <==> find_user_by_name(
                old(self).users_view(),
                name@,
            ) is Some) && (e == DatabaseError::UniqueAlreadyExists || e
                == DatabaseError::PWHashError || e == DatabaseError::SqlError),
            r matches Err(e) && e == DatabaseError::SqlError ==> old(self).next_user_id
                == i32::MAX,
            r matches Ok(u) ==> ({
                &&& find_user_by_name(old(self).users_view(), name@) is None
                &&& u.id == old(self).next_user_id
                &&& u.name@ == name@
                &&& u.role == role
                &&& argon2_verifies(encode_utf8(password@), u.password_hash@)
                &&& final(self).users_view() == old(self).users_view().push(user_view(u))
                &&& final(self).api_keys == old(self).api_keys
                &&& final(self).crates == old(self).crates
                &&& final(self).owners == old(self).owners
                &&& final(self).next_user_id == old(self).next_user_id + 1
                &&& final(self).next_key_id == old(self).next_key_id
                &&& final(self).next_crate_id == old(self).next_crate_id
            }),
    {
        proof {
            lemma_find_user_by_name_spec(self.users_view(), name@);
        }
        if self.lookup_user_by_name(&name).is_some() {
            return Err(DatabaseError::UniqueAlreadyExists);
        }
        let password_hash = match hash_secret(password.as_str().as_bytes()) {
            Ok(h) => h,
            Err(_) => {
                return Err(DatabaseError::PWHashError);
            },
        };
        if self.next_user_id == i32::MAX {
            return Err(DatabaseError::SqlError);
        }
        let id = self.next_user_id;
        let user = User { id, name, password_hash, role };
        let result = user.clone();
        let ghost before = self.users_view();
        self.users.push(user);
        self.next_user_id = id + 1;
        proof {
            assert(self.users_view() =~= before.push(user_view(result)));
            assert forall|i: int, j: int|
                0 <= i < j < self.users_view().len() implies #[trigger] self.users_view()[i].name
                != #[trigger] self.users_view()[j].name && self.users_view()[i].id
                != self.users_view()[j].id by {
                if j == self.users_view().len() - 1 {
                    assert(before[i] == self.users_view()[i]);
                }
            }
            assert(self.keys_view() =~= old(self).keys_view());
            assert(self.crates_view() =~= old(self).crates_view());
        }
        Ok(result)
    }

    /// Verifies a login password against a user's stored hash. A malformed
    /// hash and a mismatch are the same uniform failure.
    pub fn verify_password(&self, user: &User, password: String) -> (r: Result<
        (),
        DatabaseError,
    >)
        ensures
            r is Ok <==> argon2_verifies(encode_utf8(password@), user.password_hash@),
            r matches Err(e) ==> e == DatabaseError::PWHashError,
    {
        if verify_secret(password.as_str().as_bytes(), user.password_hash.as_str()) {
            Ok(())
        } else {
            Err(DatabaseError::PWHashError)
        }
    }

    /// Issues a bearer token: draws a fresh secret, encodes it, hashes the
    /// encoded secret, rejects taken key names and duplicate hashes, stores
    /// the key row, and returns `base64(username ++ ":" ++ secret_text)` —
    /// the one time the caller can see the secret.
    pub fn generate_api_key(&mut self, name: String, user: &User) -> (r: Result<
        String,
        DatabaseError,
    >)
        requires
            old(self).wf(),
        ensures
            final(self).wf(),
            r matches Err(e) ==> *final(self) == *old(self) && (e
                == DatabaseError::UniqueAlreadyExists || e == DatabaseError::PWHashError || e
                == DatabaseError::SqlError),
            find_key_by_name(old(self).keys_view(), name@) is Some ==> (r matches Err(e) && e
                == DatabaseError::UniqueAlreadyExists),
            r matches Err(e) && e == DatabaseError::SqlError ==> old(self).next_key_id
                == i32::MAX,
            r matches Ok(token) ==> ({
                let kv = final(self).keys_view().last();
                &&& find_key_by_name(old(self).keys_view(), name@) is None
                &&& final(self).keys_view() == old(self).keys_view().push(kv)
                &&& kv.name == name@
                &&& kv.uid == user.id
                &&& kv.id == old(self).next_key_id
                &&& final(self).users == old(self).users
                &&& final(self).crates == old(self).crates
                &&& final(self).owners == old(self).owners
                &&& final(self).next_user_id == old(self).next_user_id
                &&& final(self).next_crate_id == old(self).next_crate_id
                &&& final(self).next_key_id == old(self).next_key_id + 1
                &&& !user.name@.contains(':') ==> (token_parts(token@) matches Some(parts)
                    && parts.0 == user.name@ && argon2_verifies(parts.1, kv.key))
            }),
    {
        proof {
            lemma_find_key_by_name_spec(self.keys_view(), name@);
        }
        if self.lookup_key_by_name(&name).is_some() {
            return Err(DatabaseError::UniqueAlreadyExists);
        }
        let secret = match random_secret() {
            Some(b) => b,
            None => {
                return Err(DatabaseError::PWHashError);
            },
        };
        let secret_text = b64_encode(secret.as_slice());
        let key_hash = match hash_secret(secret_text.as_str().as_bytes()) {
            Ok(h) => h,
            Err(_) => {
                return Err(DatabaseError::PWHashError);
            },
        };
        let len = self.api_keys.len();
        let mut i: usize = 0;
        while i < len
            invariant
                *self == *old(self),
                old(self).wf(),
                len == self.api_keys@.len(),
                find_key_by_name(old(self).keys_view(), name@) is None,
            decreases len - i,
        {
            if self.api_keys[i].uid == user.id && self.api_keys[i].key.eq(&key_hash) {
                return Err(DatabaseError::UniqueAlreadyExists);
            }
            i = i + 1;
        }
        if self.next_key_id == i32::MAX {
            return Err(DatabaseError::SqlError);
        }
        let kid = self.next_key_id;
        let ghost before = self.keys_view();
        let record = ApiKey { id: kid, name, uid: user.id, key: key_hash };
        let ghost kv = key_view(record);
        self.api_keys.push(record);
        self.next_key_id = kid + 1;
        let token = encode_token(user.name.as_str(), secret_text.as_str());
        proof {
            assert(self.keys_view() =~= before.push(kv));
            assert forall|a: int, b: int|
                0 <= a < b < self.keys_view().len() implies #[trigger] self.keys_view()[a].name
                != #[trigger] self.keys_view()[b].name && self.keys_view()[a].id
                != self.keys_view()[b].id by {
                if b == self.keys_view().len() - 1 {
                    assert(before[a] == self.keys_view()[a]);
                }
            }
            assert(self.users_view() =~= old(self).users_view());
            assert(self.crates_view() =~= old(self).crates_view());
        }
        Ok(token)
    }

    /// Resolves a presented bearer token to its user, or to "no identity".
    /// Decoding failures, unknown names and unmatched secrets are all the
    /// same outcome, so a caller cannot learn which check failed.
    pub fn verify_api_key(&self, key: String) -> (r: Result<Option<User>, DatabaseError>)
        ensures
            r matches Ok(ident) && match token_user_index(
                self.users_view(),
                self.keys_view(),
                key@,
            ) {
                Some(i) => ident matches Some(u) && user_view(u) == self.users_view()[i],
                None => ident is None,
            },
    {
        let parts = match decode_token(key.as_str()) {
            Some(p) => p,
            None => {
                return Ok(None);
            },
        };
        let (name, secret) = parts;
        let idx = match self.lookup_user_by_name(&name) {
            Some(i) => i,
            None => {
                return Ok(None);
            },
        };
        proof {
            lemma_find_user_by_name_spec(self.users_view(), name@);
        }
        let uid = self.users[idx].id;
        let len = self.api_keys.len();
        let mut j: usize = 0;
        while j < len
            invariant
                j <= len == self.keys_view().len(),
                0 <= idx < self.users_view().len(),
                uid == self.users_view()[idx as int].id,
                token_parts(key@) == Some((name@, secret@)),
                find_user_by_name(self.users_view(), name@) == Some(idx as int),
                forall|l: int|
                    #![trigger self.keys_view()[l]]
                    0 <= l < j ==> !(self.keys_view()[l].uid == uid && argon2_verifies(
                        secret@,
                        self.keys_view()[l].key,
                    )),
            decreases len - j,
        {
            if self.api_keys[j].uid == uid {
                if verify_secret(secret.as_slice(), self.api_keys[j].key.as_str()) {
                    proof {
                        assert(self.keys_view()[j as int].uid == uid && argon2_verifies(
                            secret@,
                            self.keys_view()[j as int].key,
                        ));
                        assert(some_key_matches(self.keys_view(), uid, secret@));
                    }
                    return Ok(Some(self.users[idx].clone()));
                }
            }
            j = j + 1;
        }
        proof {
            assert(!some_key_matches(self.keys_view(), uid, secret@));
        }
        Ok(None)
    }

    /// Revokes the key matching both the key id and the owning user id.
    /// Another user's key, or a key that does not exist, is left alone and
    /// the call still succeeds: revocation is an idempotent no-op then.
    pub fn revoke_api_key(&mut self, id: i32, uid: i32) -> (r: Result<(), DatabaseError>)
        requires
            old(self).wf(),
        ensures
            final(self).wf(),
            r is Ok,
            final(self).keys_view() == keys_after_revoke(old(self).keys_view(), id, uid),
            final(self).users == old(self).users,
            final(self).crates == old(self).crates,
            final(self).owners == old(self).owners,
            final(self).next_user_id == old(self).next_user_id,
            final(self).next_key_id == old(self).next_key_id,
            final(self).next_crate_id == old(self).next_crate_id,
    {
        let ghost kvs = old(self).keys_view();
        let ghost mut done: int = 0;
        let mut i: usize = 0;
        while i < self.api_keys.len()
            invariant
                0 <= done <= kvs.len(),
                i == keys_after_revoke(kvs.take(done), id, uid).len(),
                self.api_keys@.len() == i + (kvs.len() - done),
                self.keys_view() =~= keys_after_revoke(kvs.take(done), id, uid) + kvs.skip(done),
                self.users == old(self).users,
                self.crates == old(self).crates,
                self.owners == old(self).owners,
                self.next_user_id == old(self).next_user_id,
                self.next_key_id == old(self).next_key_id,
                self.next_crate_id == old(self).next_crate_id,
            decreases kvs.len() - done,
        {
            let ghost prefix = keys_after_revoke(kvs.take(done), id, uid);
            let ghost before_vec = self.api_keys@;
            let ghost before_view = self.keys_view();
            proof {
                assert(self.keys_view()[i as int] == kvs.skip(done)[0]);
                assert(kvs.skip(done)[0] == kvs[done]);
                assert(kvs.take(done + 1) =~= kvs.take(done).push(kvs[done]));
                assert(kvs.take(done + 1).drop_last() =~= kvs.take(done));
            }
            if self.api_keys[i].id == id && self.api_keys[i].uid == uid {
                self.api_keys.remove(i);
                proof {
                    assert(keys_after_revoke(kvs.take(done + 1), id, uid) == prefix);
                    before_vec.remove_ensures(i as int);
                    assert forall|l: int|
                        0 <= l < self.api_keys@.len() implies key_view(self.api_keys@[l]) == (
                    prefix + kvs.skip(done + 1))[l] by {
                        if l < i {
                            assert(self.api_keys@[l] == before_vec[l]);
                            assert(before_view[l] == (prefix + kvs.skip(done))[l]);
                        } else {
                            assert(self.api_keys@[l] == before_vec[l + 1]);
                            assert(before_view[l + 1] == (prefix + kvs.skip(done))[l + 1]);
                            assert(kvs.skip(done)[l + 1 - i] == kvs[done + 1 + l - i]);
                            assert(kvs.skip(done + 1)[l - i] == kvs[done + 1 + l - i]);
                        }
                    }
                    assert(self.keys_view() =~= prefix + kvs.skip(done + 1));
                }
            } else {
                i = i + 1;
                proof {
                    assert(keys_after_revoke(kvs.take(done + 1), id, uid) == prefix.push(
                        kvs[done],
                    ));
                    assert(self.keys_view() =~= prefix.push(kvs[done]) + kvs.skip(done + 1));
                }
            }
            proof {
                done = done + 1;
            }
        }
        proof {
            assert(kvs.take(done) =~= kvs);
            assert(self.keys_view() =~= keys_after_revoke(kvs, id, uid));
            assert(self.users_view() =~= old(self).users_view());
            assert(self.crates_view() =~= old(self).crates_view());
            lemma_keys_after_revoke_membership(kvs, id, uid);
            lemma_keys_after_revoke_distinct(kvs, id, uid);
            assert forall|l: int|
                0 <= l < self.keys_view().len() implies 1 <= #[trigger] self.keys_view()[l].id
                < self.next_key_id by {
                assert(keys_after_revoke(kvs, id, uid).contains(self.keys_view()[l]));
                let m = choose|m: int| 0 <= m < kvs.len() && kvs[m] == self.keys_view()[l];
            }
        }
        Ok(())
    }

    /// Scans the crate table for a name, front to back.
    fn lookup_crate_by_name(&self, name: &String) -> (r: Option<usize>)
        ensures
            match r {
                Some(i) => find_crate_by_name(self.crates_view(), name@) == Some(i as int),
                None => find_crate_by_name(self.crates_view(), name@) is None,
            },
    {
        proof {
            lemma_find_crate_by_name_spec(self.crates_view(), name@);
        }
        let len = self.crates.len();
        let mut i: usize = 0;
        while i < len
            invariant
                i <= len == self.crates_view().len(),
                forall|j: int| 0 <= j < i ==> self.crates_view()[j].name != name@,
                match find_crate_by_name(self.crates_view(), name@) {
                    Some(k) => 0 <= k < self.crates_view().len() && self.crates_view()[k].name
                        == name@ && forall|j: int|
                        0 <= j < k ==> self.crates_view()[j].name != name@,
                    None => forall|j: int|
                        0 <= j < self.crates_view().len() ==> self.crates_view()[j].name != name@,
                },
            decreases len - i,
        {
            if self.crates[i].name.eq(name) {
                proof {
                    assert(self.crates_view()[i as int].name == name@);
                    assert(find_crate_by_name(self.crates_view(), name@) == Some(i as int));
                }
                return Some(i);
            }
            i = i + 1;
        }
        None
    }

    /// Records a crate row for the name and returns the first row carrying
    /// it, as the backend's insert-then-select does.
    pub fn create_crate(&mut self, name: String) -> (r: Result<Crate, DatabaseError>)
        requires
            old(self).wf(),
        ensures
            final(self).wf(),
            r matches Err(e) ==> *final(self) == *old(self) && e == DatabaseError::SqlError && old(
                self,
            ).next_crate_id == i32::MAX,
            old(self).next_crate_id < i32::MAX ==> r is Ok,
            r matches Ok(c) ==> ({
                &&& final(self).crates_view() == old(self).crates_view().push(
                    CrateView { id: old(self).next_crate_id, name: name@ },
                )
                &&& (find_crate_by_name(final(self).crates_view(), name@) matches Some(i)
                    && crate_view(c) == final(self).crates_view()[i])
                &&& final(self).users == old(self).users
                &&& final(self).api_keys == old(self).api_keys
                &&& final(self).owners == old(self).owners
                &&& final(self).next_user_id == old(self).next_user_id
                &&& final(self).next_key_id == old(self).next_key_id
                &&& final(self).next_crate_id == old(self).next_crate_id + 1
            }),
    {
        if self.next_crate_id == i32::MAX {
            return Err(DatabaseError::SqlError);
        }
        let cid = self.next_crate_id;
        let ghost before = self.crates_view();
        self.crates.push(Crate { id: cid, name: name.clone() });
        self.next_crate_id = cid + 1;
        proof {
            assert(self.crates_view() =~= before.push(CrateView { id: cid, name: name@ }));
            assert forall|a: int, b: int|
                0 <= a < b < self.crates_view().len() implies #[trigger] self.crates_view()[a].id
                != #[trigger] self.crates_view()[b].id by {
                if b == self.crates_view().len() - 1 {
                    assert(before[a] == self.crates_view()[a]);
                }
            }
            assert(self.users_view() =~= old(self).users_view());
            assert(self.keys_view() =~= old(self).keys_view());
            lemma_find_crate_by_name_spec(self.crates_view(), name@);
        }
        match self.lookup_crate_by_name(&name) {
            Some(i) => Ok(self.crates[i].clone()),
            None => {
                proof {
                    assert(self.crates_view().last().name == name@);
                    assert(false);
                }
                Err(DatabaseError::SqlError)
            },
        }
    }

    /// Records an ownership edge; duplicates are the caller's concern, as
    /// they are for the backend.
    pub fn add_crate_owner(&mut self, cid: i32, uid: i32) -> (r: Result<(), DatabaseError>)
        requires
            old(self).wf(),
        ensures
            final(self).wf(),
            r is Ok,
            final(self).owners@ == old(self).owners@.push(Owner { cid, uid }),
            final(self).users == old(self).users,
            final(self).api_keys == old(self).api_keys,
            final(self).crates == old(self).crates,
            final(self).next_user_id == old(self).next_user_id,
            final(self).next_key_id == old(self).next_key_id,
            final(self).next_crate_id == old(self).next_crate_id,
    {
        self.owners.push(Owner { cid, uid });
        proof {
            assert(self.users_view() =~= old(self).users_view());
            assert(self.keys_view() =~= old(self).keys_view());
            assert(self.crates_view() =~= old(self).crates_view());
        }
        Ok(())
    }

    /// Removes every edge matching both the crate id and the user id.
    pub fn remove_crate_owner(&mut self, cid: i32, uid: i32) -> (r: Result<(), DatabaseError>)
        requires
            old(self).wf(),
        ensures
            final(self).wf(),
            r is Ok,
            final(self).owners@ == owners_after_remove(old(self).owners@, cid, uid),
            final(self).users == old(self).users,
            final(self).api_keys == old(self).api_keys,
            final(self).crates == old(self).crates,
            final(self).next_user_id == old(self).next_user_id,
            final(self).next_key_id == old(self).next_key_id,
            final(self).next_crate_id == old(self).next_crate_id,
    {
        let ghost os = old(self).owners@;
        let ghost mut done: int = 0;
        let mut i: usize = 0;
        while i < self.owners.len()
            invariant
                0 <= done <= os.len(),
                i == owners_after_remove(os.take(done), cid, uid).len(),
                self.owners@.len() == i + (os.len() - done),
                self.owners@ =~= owners_after_remove(os.take(done), cid, uid) + os.skip(done),
                self.users == old(self).users,
                self.api_keys == old(self).api_keys,
                self.crates == old(self).crates,
                self.next_user_id == old(self).next_user_id,
                self.next_key_id == old(self).next_key_id,
                self.next_crate_id == old(self).next_crate_id,
            decreases os.len() - done,
        {
            let ghost prefix = owners_after_remove(os.take(done), cid, uid);
            proof {
                assert(self.owners@[i as int] == os.skip(done)[0]);
                assert(os.skip(done)[0] == os[done]);
                assert(os.take(done + 1) =~= os.take(done).push(os[done]));
                assert(os.take(done + 1).drop_last() =~= os.take(done));
            }
            if self.owners[i].cid == cid && self.owners[i].uid == uid {
                self.owners.remove(i);
                proof {
                    assert(owners_after_remove(os.take(done + 1), cid, uid) == prefix);
                    assert(self.owners@ =~= prefix + os.skip(done + 1));
                }
            } else {
                i = i + 1;
                proof {
                    assert(owners_after_remove(os.take(done + 1), cid, uid) == prefix.push(
                        os[done],
                    ));
                    assert(self.owners@ =~= prefix.push(os[done]) + os.skip(done + 1));
                }
            }
            proof {
                done = done + 1;
            }
        }
        proof {
            assert(os.take(done) =~= os);
            assert(self.users_view() =~= old(self).users_view());
            assert(self.keys_view() =~= old(self).keys_view());
            assert(self.crates_view() =~= old(self).crates_view());
        }
        Ok(())
    }

    /// Lists the owners of the named crate: the users joined through the
    /// edge table, in edge order. An unknown crate yields an empty list,
    /// not an error.
    pub fn get_crate_owners(&self, name: String) -> (r: Result<Vec<User>, DatabaseError>)
        ensures
            r matches Ok(list) && match find_crate_by_name(self.crates_view(), name@) {
                None => list@.len() == 0,
                Some(ci) => user_views(list@) == join_owners(
                    self.owners@,
                    self.users_view(),
                    self.crates_view()[ci].id,
                ),
            },
    {
        proof {
            lemma_find_crate_by_name_spec(self.crates_view(), name@);
        }
        let ci = match self.lookup_crate_by_name(&name) {
            Some(i) => i,
            None => {
                return Ok(Vec::new());
            },
        };
        let cid = self.crates[ci].id;
        let mut out: Vec<User> = Vec::new();
        let len = self.owners.len();
        let mut i: usize = 0;
        while i < len
            invariant
                i <= len == self.owners@.len(),
                user_views(out@) == join_owners(self.owners@.take(i as int), self.users_view(), cid),
            decreases len - i,
        {
            let ghost prefix = self.owners@.take(i as int);
            proof {
                assert(self.owners@.take(i + 1) =~= prefix.push(self.owners@[i as int]));
                assert(self.owners@.take(i + 1).drop_last() =~= prefix);
            }
            let edge = self.owners[i];
            if edge.cid == cid {
                match self.lookup_user_by_id(edge.uid) {
                    Some(ui) => {
                        proof {
                            lemma_find_user_by_id_spec(self.users_view(), edge.uid);
                        }
                        out.push(self.users[ui].clone());
                        proof {
                            assert(user_views(out@) =~= join_owners(prefix, self.users_view(), cid)
                                .push(self.users_view()[ui as int]));
                        }
                    },
                    None => {},
                }
            }
            proof {
                assert(user_views(out@) == join_owners(
                    self.owners@.take(i + 1),
                    self.users_view(),
                    cid,
                ));
            }
            i = i + 1;
        }
        proof {
            assert(self.owners@.take(len as int) =~= self.owners@);
        }
        Ok(out)
    }

    /// Schema initialization and bootstrap: idempotently ensures the
    /// default administrator account exists. A second run finds the
    /// account and changes nothing, so migration is safe on every process
    /// start. A conflict from the bootstrap insert is swallowed; any other
    /// failure propagates.
    pub fn migrate(&mut self) -> (r: Result<(), DatabaseError>)
        requires
            old(self).wf(),
        ensures
            final(self).wf(),
            find_user_by_name(old(self).users_view(), "admin"@) is Some ==> (r is Ok
                && *final(self) == *old(self)),
            r is Ok ==> find_user_by_name(final(self).users_view(), "admin"@) is Some,
            r matches Err(e) ==> *final(self) == *old(self) && (e == DatabaseError::PWHashError
                || (e == DatabaseError::SqlError && old(self).next_user_id == i32::MAX)),
            r is Ok && find_user_by_name(old(self).users_view(), "admin"@) is None ==> ({
                let admin = final(self).users_view().last();
                &&& final(self).users_view() == old(self).users_view().push(admin)
                &&& admin.name == "admin"@
                &&& admin.role == UserRole::Administrator
                &&& argon2_verifies(encode_utf8("admin"@), admin.password_hash)
                &&& final(self).api_keys == old(self).api_keys
                &&& final(self).crates == old(self).crates
                &&& final(self).owners == old(self).owners
            }),
    {
        let admin_name = "admin".to_owned();
        if self.lookup_user_by_name(&admin_name).is_some() {
            return Ok(());
        }
        proof {
            lemma_find_user_by_name_spec(self.users_view(), "admin"@);
        }
        match self.create_user(admin_name, "admin".to_owned(), UserRole::Administrator) {
            Ok(created) => {
                proof {
                    lemma_find_user_by_name_spec(self.users_view(), "admin"@);
                    assert(self.users_view().last() == user_view(created));
                }
                Ok(())
            },
            Err(e) => {
                if matches!(e, DatabaseError::UniqueAlreadyExists) {
                    proof {
                        assert(false);
                    }
                    Ok(())
                } else {
                    Err(e)
                }
            },
        }
    }
}

/// In a store whose user names are pairwise distinct, looking a stored
/// user's own name up finds exactly that user. Together with the hash
/// fact `create_user` states and the contracts of `verify_password` and
/// `login_user`, this is the provable half of password correctness: a
/// freshly created user is accepted with the password they were created
/// with. (That every other password fails is a property of the hash
/// function and is checked by test, not proved.)
pub proof fn lemma_lookup_of_stored_user(users: Seq<UserView>, i: int)
    requires
        forall|a: int, b: int|
            #![trigger users[a], users[b]]
            0 <= a < b < users.len() ==> users[a].name != users[b].name,
        0 <= i < users.len(),
    ensures
        find_user_by_name(users, users[i].name) == Some(i),
{
    lemma_find_user_by_name_spec(users, users[i].name);
    match find_user_by_name(users, users[i].name) {
        Some(k) => {
            if k < i {
                assert(users[k].name != users[i].name);
                assert(false);
            }
            if i < k {
                assert(users[i].name != users[i].name);
                assert(false);
            }
        },
        None => {
            assert(users[i].name != users[i].name);
            assert(false);
        },
    }
}

/// Round trip of issue and verification: a token that parses to a stored
/// user's name together with a secret that one of the stored keys of that
/// user verifies resolves to exactly that user. With the facts
/// `generate_api_key` gives about its token and its stored key, the token
/// it hands out verifies against the store it leaves behind.
pub proof fn lemma_generated_token_verifies(
    users: Seq<UserView>,
    keys: Seq<ApiKeyView>,
    i: int,
    token: Seq<char>,
    secret: Seq<u8>,
)
    requires
        forall|a: int, b: int|
            #![trigger users[a], users[b]]
            0 <= a < b < users.len() ==> users[a].name != users[b].name,
        0 <= i < users.len(),
        token_parts(token) == Some((users[i].name, secret)),
        some_key_matches(keys, users[i].id, secret),
    ensures
        token_user_index(users, keys, token) == Some(i),
{
    lemma_lookup_of_stored_user(users, i);
}

/// Revocation: a token whose secret no stored key verifies resolves no
/// identity. After `revoke_api_key` removed the only key whose hash
/// verified a token's secret, that token is rejected.
pub proof fn lemma_unmatched_token_rejected(
    users: Seq<UserView>,
    keys: Seq<ApiKeyView>,
    token: Seq<char>,
    name: Seq<char>,
    secret: Seq<u8>,
)
    requires
        token_parts(token) == Some((name, secret)),
        forall|l: int|
            #![trigger keys[l]]
            0 <= l < keys.len() ==> !argon2_verifies(secret, keys[l].key),
    ensures
        token_user_index(users, keys, token) is None,
{
    match find_user_by_name(users, name) {
        Some(k) => {
            if some_key_matches(keys, users[k].id, secret) {
                let l = choose|l: int|
                    #![trigger keys[l]]
                    0 <= l < keys.len() && keys[l].uid == users[k].id && argon2_verifies(
                        secret,
                        keys[l].key,
                    );
                assert(!argon2_verifies(secret, keys[l].key));
                assert(false);
            }
        },
        None => {},
    }
}

/// Ownership isolation: revoking with another user's id leaves a matching
/// key in place, so a token backed by that key still resolves to its user.
pub proof fn lemma_revocation_scoped_to_owner(
    users: Seq<UserView>,
    keys: Seq<ApiKeyView>,
    i: int,
    token: Seq<char>,
    secret: Seq<u8>,
    id: i32,
    other_uid: i32,
)
    requires
        forall|a: int, b: int|
            #![trigger users[a], users[b]]
            0 <= a < b < users.len() ==> users[a].name != users[b].name,
        0 <= i < users.len(),
        token_parts(token) == Some((users[i].name, secret)),
        some_key_matches(keys, users[i].id, secret),
        users[i].id != other_uid,
    ensures
        token_user_index(users, keys_after_revoke(keys, id, other_uid), token) == Some(i),
{
    let l = choose|l: int|
        #![trigger keys[l]]
        0 <= l < keys.len() && keys[l].uid == users[i].id && argon2_verifies(secret, keys[l].key);
    lemma_keys_after_revoke_membership(keys, id, other_uid);
    let kept = keys_after_revoke(keys, id, other_uid);
    assert(kept.contains(keys[l]));
    let m = choose|m: int| 0 <= m < kept.len() && kept[m] == keys[l];
    assert(some_key_matches(kept, users[i].id, secret));
    lemma_generated_token_verifies(users, kept, i, token, secret);
}

/// Which relational backend a schema statement is phrased for.
#[derive(Clone, Copy, Debug, PartialEq, Eq, Structural)]
pub enum DatabaseType {
    MySql,
    MsSql,
    PgSql,
    Sqlite,
}

/// The column type of a self-incrementing integer primary key, per backend.
pub fn id_type(t: DatabaseType) -> (s: &'static str)
    ensures
        s@ == match t {
            DatabaseType::PgSql => "SERIAL"@,
            _ => "INTEGER AUTO_INCREMENT"@,
        },
{
    match t {
        DatabaseType::PgSql => "SERIAL",
        _ => "INTEGER AUTO_INCREMENT",
    }
}

/// The column constraint marking a value unique, per backend.
pub fn unique(t: DatabaseType) -> (s: &'static str)
    ensures
        s@ == match t {
            DatabaseType::PgSql => "UNIQUE"@,
            _ => "UNIQUE KEY"@,
        },
{
    match t {
        DatabaseType::PgSql => "UNIQUE",
        _ => "UNIQUE KEY",
    }
}

} // verus!
