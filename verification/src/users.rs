//! Users kept in memory, and the request handlers in front of them.

use vstd::prelude::*;
use vstd::std_specs::iter::IteratorSpec;
use vstd::std_specs::hash::spec_values_iter;
use std::collections::HashMap;
use crate::text::{decimal, u64_to_decimal};

verus! {

broadcast use vstd::string::group_string_axioms, vstd::std_specs::hash::group_hash_axioms;

/// A user of the service.
#[derive(Debug, Clone)]
pub struct User {
    pub id: u64,
    pub name: String,
    pub email: String,
}

impl User {
    pub fn new(id: u64, name: String, email: String) -> (u: Self)
        ensures
            u.id == id,
            u.name == name,
            u.email == email,
    {
        User { id, name, email }
    }

    /// An equal copy of this user.
    pub fn duplicate(&self) -> (u: Self)
        ensures
            u == *self,
    {
        User { id: self.id, name: self.name.clone(), email: self.email.clone() }
    }
}

/// What a service request can fail with.
#[derive(Debug, Clone)]
pub enum ServiceError {
    InvalidInput(String),
    NotFound(String),
}

/// The text that displaying a service error gives.
pub open spec fn service_error_text(e: ServiceError) -> Seq<char> {
    match e {
        ServiceError::InvalidInput(m) => "Invalid input: "@ + m@,
        ServiceError::NotFound(m) => "Not found: "@ + m@,
    }
}

impl ServiceError {
    /// The text that displaying this error gives.
    pub fn to_display_string(&self) -> (r: String)
        ensures
            r@ == service_error_text(*self),
    {
        match self {
            ServiceError::InvalidInput(m) => {
                let mut r = String::from_str("Invalid input: ");
                r.append(m.as_str());
                r
            },
            ServiceError::NotFound(m) => {
                let mut r = String::from_str("Not found: ");
                r.append(m.as_str());
                r
            },
        }
    }
}

/// "User with id N not found".
pub open spec fn not_found_message(id: u64) -> Seq<char> {
    "User with id "@ + decimal(id as nat) + " not found"@
}

fn not_found(id: u64) -> (e: ServiceError)
    ensures
        e matches ServiceError::NotFound(m) && m@ == not_found_message(id),
{
    let mut m = String::from_str("User with id ");
    let d = u64_to_decimal(id);
    m.append(d.as_str());
    m.append(" not found");
    ServiceError::NotFound(m)
}

/// Users by id, handing out ids from 1 upwards.
pub struct UserService {
    users: HashMap<u64, User>,
    next_id: u64,
    /// How many users were created so far.
    created: Ghost<nat>,
    /// How many users were deleted so far.
    deleted: Ghost<nat>,
}

impl UserService {
    /// The users, by id.
    pub closed spec fn users_map(&self) -> Map<u64, User> {
        self.users@
    }

    /// The id the next created user gets.
    pub closed spec fn next(&self) -> u64 {
        self.next_id
    }

    /// How many users were created so far, deleted ones included.
    pub closed spec fn created_count(&self) -> nat {
        self.created@
    }

    /// How many users were deleted so far.
    pub closed spec fn deleted_count(&self) -> nat {
        self.deleted@
    }

    /// Every stored user is stored under its own id, every id in use is
    /// below the next one handed out (which is never 0), and the users
    /// stored are those created and not deleted.
    pub open spec fn wf(&self) -> bool {
        &&& self.next() == self.created_count() + 1
        &&& self.users_map().dom().finite()
        &&& self.users_map().dom().len() + self.deleted_count() == self.created_count()
        &&& forall|id: u64| #[trigger]
            self.users_map().contains_key(id) ==> id < self.next() && self.users_map()[id].id
                == id
    }

    pub fn new() -> (s: Self)
        ensures
            s.wf(),
            s.users_map() == Map::<u64, User>::empty(),
            s.next() == 1,
            s.created_count() == 0,
            s.deleted_count() == 0,
    {
        let s = UserService { users: HashMap::new(), next_id: 1, created: Ghost(0), deleted: Ghost(0) };
        assert(s.users_map().dom() =~= Set::<u64>::empty());
        s
    }

    /// Creates a user under the next id; a user needs a non-empty name. Ids
    /// are handed out 1, 2, 3, ... in the order of creation: the user
    /// created after `n` others gets id `n + 1`.
    pub fn create_user(&mut self, name: String, email: String) -> (r: Result<User, ServiceError>)
        requires
            old(self).wf(),
            name@.len() > 0 ==> old(self).next() < u64::MAX,
        ensures
            final(self).wf(),
            final(self).deleted_count() == old(self).deleted_count(),
            name@.len() == 0 ==> {
                &&& r matches Err(ServiceError::InvalidInput(m)) && m@ == "Name cannot be empty"@
                &&& final(self).users_map() == old(self).users_map()
                &&& final(self).next() == old(self).next()
                &&& final(self).created_count() == old(self).created_count()
            },
            name@.len() > 0 ==> {
                &&& r matches Ok(u) && u == (User { id: old(self).next(), name, email }) && u.id
                    == old(self).created_count() + 1
                &&& final(self).users_map() == old(self).users_map().insert(
                    old(self).next(),
                    User { id: old(self).next(), name, email },
                )
                &&& final(self).next() == old(self).next() + 1
                &&& final(self).created_count() == old(self).created_count() + 1
            },
    {
        if name.as_str().unicode_len() == 0 {
            return Err(ServiceError::InvalidInput(String::from_str("Name cannot be empty")));
        }
        proof {
            assert(!old(self).users_map().contains_key(old(self).next()));
        }
        let user = User::new(self.next_id, name, email);
        let stored = user.duplicate();
        let _ = self.users.insert(self.next_id, stored);
        self.next_id = self.next_id + 1;
        self.created = Ghost(self.created@ + 1);
        proof {
            assert(self.users_map().dom() =~= old(self).users_map().dom().insert(old(self).next()));
            assert forall|id: u64| #[trigger] self.users_map().contains_key(id) implies id
                < self.next() && self.users_map()[id].id == id by {
                if id != old(self).next() {
                    assert(old(self).users_map().contains_key(id));
                }
            }
        }
        Ok(user)
    }

    /// The user with the given id.
    pub fn get_user(&self, id: u64) -> (r: Result<&User, ServiceError>)
        ensures
            self.users_map().contains_key(id) ==> (r matches Ok(u) && *u == self.users_map()[id]),
            !self.users_map().contains_key(id) ==> (r matches Err(ServiceError::NotFound(m))
                && m@ == not_found_message(id)),
    {
        match self.users.get(&id) {
            Some(u) => Ok(u),
            None => Err(not_found(id)),
        }
    }

    /// All users, in no particular order: each stored user exactly once.
    pub fn list_users(&self) -> (r: Vec<&User>)
        ensures
            r@.len() == self.users_map().dom().len(),
            r@.map_values(|u: &User| *u).to_set() == self.users_map().values(),
            self.wf() ==> r@.map_values(|u: &User| *u).no_duplicates(),
            self.wf() ==> r@.len() == self.created_count() - self.deleted_count(),
    {
        let mut out: Vec<&User> = Vec::new();
        let ghost all = spec_values_iter(&self.users).remaining();
        for u in iter: self.users.values()
            invariant
                iter.seq() == all,
                out@ == all.take(iter.index() as int),
        {
            out.push(u);
        }
        proof {
            assert(out@ == all);
            assert(out@.map_values(|u: &User| *u) =~= all.unref());
            if self.wf() {
                let m = self.users_map();
                assert(m.is_injective()) by {
                    assert forall|x: u64, y: u64|
                        x != y && m.dom().contains(x) && m.dom().contains(y) implies #[trigger] m[x]
                        != #[trigger] m[y] by {
                        assert(m.contains_key(x));
                        assert(m.contains_key(y));
                    }
                }
                m.lemma_injective_values_len();
                out@.map_values(|u: &User| *u).lemma_no_dup_set_cardinality();
            }
        }
        out
    }

    /// Removes the user with the given id.
    pub fn delete_user(&mut self, id: u64) -> (r: Result<(), ServiceError>)
        requires
            old(self).wf(),
        ensures
            final(self).wf(),
            final(self).next() == old(self).next(),
            final(self).created_count() == old(self).created_count(),
            old(self).users_map().contains_key(id) ==> r is Ok && final(self).users_map()
                == old(self).users_map().remove(id) && final(self).deleted_count() == old(
                self,
            ).deleted_count() + 1,
            !old(self).users_map().contains_key(id) ==> (r matches Err(ServiceError::NotFound(m))
                && m@ == not_found_message(id) && final(self).users_map() == old(
                self,
            ).users_map() && final(self).deleted_count() == old(self).deleted_count()),
    {
        let removed = self.users.remove(&id);
        if removed.is_some() {
            self.deleted = Ghost(self.deleted@ + 1);
        }
        proof {
            assert(self.users_map().dom() =~= old(self).users_map().dom().remove(id));
            assert forall|k: u64| #[trigger] self.users_map().contains_key(k) implies k
                < self.next() && self.users_map()[k].id == k by {
                assert(old(self).users_map().contains_key(k));
            }
        }
        match removed {
            Some(_) => Ok(()),
            None => Err(not_found(id)),
        }
    }
}

} // verus!
