//! APIs keyed by HTTP method: one implementation per verb, dispatched by a
//! handler; a verb the API does not speak for is answered 405.
use vstd::prelude::*;

verus! {

use crate::handler::{Handled, Handler, Res};
use crate::request::{Method, Request};
use crate::response::{status, Response};

/// What a verb without an implementation is answered with: a bare 405.
pub open spec fn is_not_implemented_response<O, E>(r: Res<O, E>) -> bool {
    &&& r is Err
    &&& r->Err_0.status_code == 405
    &&& r->Err_0.status@ == status::spec_default(405)
    &&& r->Err_0.spec_headers() == Seq::<(Seq<char>, Seq<char>)>::empty()
    &&& r->Err_0.payload is None
}

/// The outcome of an unimplemented verb: a bare 405, the context untouched.
pub fn not_implemented<O, E, C>(context: C) -> (r: Handled<O, E, C>)
    ensures
        is_not_implemented_response(r.0),
        r.1 == context,
{
    (Err(Response::new(405)), context)
}

/// An API keyed by HTTP method: one implementation for each verb that
/// carries a request body of meaning, each stating its own outcome in its
/// companion spec function. A verb the application does not speak for
/// should answer with [`not_implemented`].
pub trait Api<I, O, E, C>: Sized {
    /// What `get` guarantees of its outcome.
    spec fn get_ens(&self, request: Request<I>, c0: C, r: Res<O, E>, c1: C) -> bool;

    /// What `post` guarantees of its outcome.
    spec fn post_ens(&self, request: Request<I>, c0: C, r: Res<O, E>, c1: C) -> bool;

    /// What `put` guarantees of its outcome.
    spec fn put_ens(&self, request: Request<I>, c0: C, r: Res<O, E>, c1: C) -> bool;

    /// What `patch` guarantees of its outcome.
    spec fn patch_ens(&self, request: Request<I>, c0: C, r: Res<O, E>, c1: C) -> bool;

    /// What `delete` guarantees of its outcome.
    spec fn delete_ens(&self, request: Request<I>, c0: C, r: Res<O, E>, c1: C) -> bool;

    /// Handle a GET request.
    fn get(&self, request: Request<I>, context: C) -> (r: Handled<O, E, C>)
        ensures
            self.get_ens(request, context, r.0, r.1),
    ;

    /// Handle a POST request.
    fn post(&self, request: Request<I>, context: C) -> (r: Handled<O, E, C>)
        ensures
            self.post_ens(request, context, r.0, r.1),
    ;

    /// Handle a PUT request.
    fn put(&self, request: Request<I>, context: C) -> (r: Handled<O, E, C>)
        ensures
            self.put_ens(request, context, r.0, r.1),
    ;

    /// Handle a PATCH request.
    fn patch(&self, request: Request<I>, context: C) -> (r: Handled<O, E, C>)
        ensures
            self.patch_ens(request, context, r.0, r.1),
    ;

    /// Handle a DELETE request.
    fn delete(&self, request: Request<I>, context: C) -> (r: Handled<O, E, C>)
        ensures
            self.delete_ens(request, context, r.0, r.1),
    ;

    /// The API as a handler, dispatching by the request's method.
    fn handler(self) -> (r: ApiHandler<Self>)
        ensures
            r.api == self,
    {
        ApiHandler { api: self }
    }
}

/// Dispatches requests to an API implementation by their HTTP method; a
/// verb outside the API's five is answered with a bare 405.
pub struct ApiHandler<A> {
    pub api: A,
}

impl<I, O, E, C, A: Api<I, O, E, C>> Handler<I, O, E, C> for ApiHandler<A> {
    open spec fn ens(&self, request: Request<I>, c0: C, r: Res<O, E>, c1: C) -> bool {
        match request.method {
            Method::GET => self.api.get_ens(request, c0, r, c1),
            Method::POST => self.api.post_ens(request, c0, r, c1),
            Method::PUT => self.api.put_ens(request, c0, r, c1),
            Method::PATCH => self.api.patch_ens(request, c0, r, c1),
            Method::DELETE => self.api.delete_ens(request, c0, r, c1),
            _ => is_not_implemented_response(r) && c1 == c0,
        }
    }

    /// Dispatch by the request's method.
    fn handle(&self, request: Request<I>, context: C) -> (r: Handled<O, E, C>)
        ensures
            self.ens(request, context, r.0, r.1),
    {
        match request.method {
            Method::GET => self.api.get(request, context),
            Method::POST => self.api.post(request, context),
            Method::PUT => self.api.put(request, context),
            Method::PATCH => self.api.patch(request, context),
            Method::DELETE => self.api.delete(request, context),
            _ => not_implemented(context),
        }
    }
}

} // verus!
