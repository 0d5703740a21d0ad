//! The request layer in front of the services: request errors, the user
//! handler, the pipeline handler and the server that holds them.

use vstd::prelude::*;
use crate::users::{not_found_message, service_error_text, ServiceError, User, UserService};

verus! {

broadcast use vstd::string::group_string_axioms;

/// What a request can fail with.
#[derive(Debug)]
pub enum RpcError {
    ServiceError(String),
    InvalidRequest(String),
    InternalError(String),
}

/// The text that displaying a request error gives.
pub open spec fn rpc_error_text(e: RpcError) -> Seq<char> {
    match e {
        RpcError::ServiceError(m) => "Service error: "@ + m@,
        RpcError::InvalidRequest(m) => "Invalid request: "@ + m@,
        RpcError::InternalError(m) => "Internal error: "@ + m@,
    }
}

impl RpcError {
    /// The text that displaying this error gives.
    pub fn to_display_string(&self) -> (r: String)
        ensures
            r@ == rpc_error_text(*self),
    {
        let (prefix, m) = match self {
            RpcError::ServiceError(m) => ("Service error: ", m),
            RpcError::InvalidRequest(m) => ("Invalid request: ", m),
            RpcError::InternalError(m) => ("Internal error: ", m),
        };
        let mut r = String::from_str(prefix);
        r.append(m.as_str());
        r
    }

    /// A service failure as a request error: its displayed text, wrapped.
    pub fn from_service_error(err: &ServiceError) -> (e: Self)
        ensures
            e matches RpcError::ServiceError(m) && m@ == service_error_text(*err),
    {
        RpcError::ServiceError(err.to_display_string())
    }
}

/// Handles user requests on top of the user service.
pub struct UserHandler {
    service: UserService,
}

impl UserHandler {
    /// The service behind the handler.
    pub closed spec fn service(&self) -> UserService {
        self.service
    }

    pub fn new() -> (h: Self)
        ensures
            h.service().wf(),
            h.service().users_map() == Map::<u64, User>::empty(),
            h.service().next() == 1,
    {
        UserHandler { service: UserService::new() }
    }

    pub fn create_user(&mut self, name: String, email: String) -> (r: Result<User, RpcError>)
        requires
            old(self).service().wf(),
            name@.len() > 0 ==> old(self).service().next() < u64::MAX,
        ensures
            final(self).service().wf(),
            name@.len() == 0 ==> {
                &&& r matches Err(RpcError::ServiceError(m)) && m@ == "Invalid input: "@
                    + "Name cannot be empty"@
                &&& final(self).service().users_map() == old(self).service().users_map()
                &&& final(self).service().next() == old(self).service().next()
            },
            name@.len() > 0 ==> {
                &&& r matches Ok(u) && u == (User { id: old(self).service().next(), name, email })
                &&& final(self).service().users_map() == old(self).service().users_map().insert(
                    old(self).service().next(),
                    User { id: old(self).service().next(), name, email },
                )
                &&& final(self).service().next() == old(self).service().next() + 1
            },
    {
        match self.service.create_user(name, email) {
            Ok(u) => Ok(u),
            Err(e) => Err(RpcError::from_service_error(&e)),
        }
    }

    pub fn get_user(&self, id: u64) -> (r: Result<User, RpcError>)
        ensures
            self.service().users_map().contains_key(id) ==> (r matches Ok(u) && u
                == self.service().users_map()[id]),
            !self.service().users_map().contains_key(id) ==> (r matches Err(
                RpcError::ServiceError(m),
            ) && m@ == "Not found: "@ + not_found_message(id)),
    {
        match self.service.get_user(id) {
            Ok(u) => Ok(u.duplicate()),
            Err(e) => Err(RpcError::from_service_error(&e)),
        }
    }

    /// All users, in no particular order: each stored user exactly once.
    pub fn list_users(&self) -> (r: Result<Vec<User>, RpcError>)
        ensures
            r matches Ok(v) && v@.len() == self.service().users_map().dom().len()
                && v@.to_set() == self.service().users_map().values(),
    {
        let refs = self.service.list_users();
        let mut out: Vec<User> = Vec::new();
        let mut i: usize = 0;
        while i < refs.len()
            invariant
                i <= refs@.len(),
                out@ == refs@.map_values(|u: &User| *u).subrange(0, i as int),
            decreases refs@.len() - i,
        {
            out.push(refs[i].duplicate());
            i = i + 1;
        }
        assert(out@ == refs@.map_values(|u: &User| *u));
        Ok(out)
    }

    pub fn delete_user(&mut self, id: u64) -> (r: Result<(), RpcError>)
        requires
            old(self).service().wf(),
        ensures
            final(self).service().wf(),
            final(self).service().next() == old(self).service().next(),
            old(self).service().users_map().contains_key(id) ==> r is Ok
                && final(self).service().users_map() == old(self).service().users_map().remove(id),
            !old(self).service().users_map().contains_key(id) ==> (r matches Err(
                RpcError::ServiceError(m),
            ) && m@ == "Not found: "@ + not_found_message(id) && final(self).service().users_map()
                == old(self).service().users_map()),
    {
        match self.service.delete_user(id) {
            Ok(()) => Ok(()),
            Err(e) => Err(RpcError::from_service_error(&e)),
        }
    }
}

/// The request server: holds the handlers.
pub struct RpcServer {
    user_handler: UserHandler,
}

impl RpcServer {
    /// The user handler that the server holds.
    pub closed spec fn users(&self) -> UserHandler {
        self.user_handler
    }

    pub fn new() -> (s: Self)
        ensures
            s.users().service().wf(),
            s.users().service().users_map() == Map::<u64, User>::empty(),
            s.users().service().next() == 1,
    {
        RpcServer { user_handler: UserHandler::new() }
    }

    pub fn user_handler(&self) -> (h: &UserHandler)
        ensures
            *h == self.users(),
    {
        &self.user_handler
    }

    pub fn user_handler_mut(&mut self) -> (h: &mut UserHandler)
        ensures
            *h == old(self).users(),
            final(self).users() == *final(h),
    {
        &mut self.user_handler
    }
}

/// Handles pipeline requests.
#[derive(Debug)]
pub struct PipelineHandler;

impl PipelineHandler {
    pub fn new() -> (h: Self) {
        PipelineHandler
    }
}

/// A created user can be read back under its id, unchanged, until it is
/// deleted; other users are unaffected by the creation.
pub proof fn lemma_create_then_get(users: Map<u64, User>, u: User, other: u64)
    ensures
        users.insert(u.id, u).contains_key(u.id),
        users.insert(u.id, u)[u.id] == u,
        other != u.id ==> (users.insert(u.id, u).contains_key(other) == users.contains_key(other)
            && (users.contains_key(other) ==> users.insert(u.id, u)[other] == users[other])),
{
}

/// A deleted user is no longer found.
pub proof fn lemma_delete_then_get(users: Map<u64, User>, id: u64)
    ensures
        !users.remove(id).contains_key(id),
{
}

} // verus!
