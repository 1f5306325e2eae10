//! Authentication as a pre-emptive filter: a rejected request never reaches
//! the wrapped handler and is answered with a bare 401.
use vstd::prelude::*;

verus! {

use core::marker::PhantomData;
use crate::handler::{Handled, Handler, Res};
use crate::request::Request;
use crate::response::{status, Response};

/// Why an authenticator rejected a request. The detail is kept for the
/// application's own use; the client only ever sees a bare 401.
#[derive(Debug)]
pub struct AuthError {
    reason: String,
}

impl View for AuthError {
    type V = Seq<char>;

    closed spec fn view(&self) -> Seq<char> {
        self.reason@
    }
}

impl AuthError {
    /// Record why a request was rejected.
    pub fn new(reason: &str) -> (r: Self)
        ensures
            r@ == reason@,
    {
        Self { reason: reason.to_owned() }
    }

    /// The recorded reason.
    pub fn reason(&self) -> (r: &String)
        ensures
            r@ == self@,
    {
        &self.reason
    }
}

/// What every rejection is answered with: a bare 401 response, no payload,
/// no headers, whatever the rejection reason was.
pub open spec fn is_unauthorized_response<E>(resp: Response<E>) -> bool {
    &&& resp.status_code == 401
    &&& resp.status@ == status::spec_default(401)
    &&& resp.spec_headers() == Seq::<(Seq<char>, Seq<char>)>::empty()
    &&& resp.payload is None
}

/// Wraps a handler behind a predicate over the request: where the predicate
/// rejects, the wrapped handler is never invoked and the response is a fixed
/// 401 with the rejection detail discarded.
#[verifier::reject_recursive_types(I)]
#[verifier::reject_recursive_types(C)]
pub struct Authenticator<I, C, F: Fn(&Request<I>, C) -> (Result<(), AuthError>, C), H> {
    fauth: F,
    handler: H,
    phantom: PhantomData<(I, C)>,
}

impl<I, C, F: Fn(&Request<I>, C) -> (Result<(), AuthError>, C), H> Authenticator<I, C, F, H> {
    #[verifier::type_invariant]
    spec fn inv(self) -> bool {
        forall|req: &Request<I>, c: C| call_requires(self.fauth, (req, c))
    }

    /// The authentication predicate.
    pub closed spec fn func(&self) -> F {
        self.fauth
    }

    /// The wrapped handler.
    pub closed spec fn inner(&self) -> H {
        self.handler
    }

    /// Guard a handler with an authentication predicate. The predicate must
    /// be callable on every request and context.
    pub fn new(fauth: F, handler: H) -> (r: Self)
        requires
            forall|req: &Request<I>, c: C| call_requires(fauth, (req, c)),
        ensures
            r.func() == fauth,
            r.inner() == handler,
    {
        Self { fauth, handler, phantom: PhantomData }
    }
}

impl<
    I,
    O,
    E,
    C,
    F: Fn(&Request<I>, C) -> (Result<(), AuthError>, C),
    H: Handler<I, O, E, C>,
> Handler<I, O, E, C> for Authenticator<I, C, F, H> {
    open spec fn ens(&self, request: Request<I>, c0: C, r: Res<O, E>, c1: C) -> bool {
        exists|v: Result<(), AuthError>, cm: C|
            {
                &&& #[trigger] call_ensures(self.func(), (&request, c0), (v, cm))
                &&& match v {
                    Ok(u) => self.inner().ens(request, cm, r, c1),
                    Err(e) => r is Err && is_unauthorized_response(r->Err_0) && c1 == cm,
                }
            }
    }

    /// Run the predicate first; on rejection answer 401 at once, never
    /// invoking the wrapped handler, else hand the request through.
    fn handle(&self, request: Request<I>, context: C) -> (r: Handled<O, E, C>)
        ensures
            self.ens(request, context, r.0, r.1),
            exists|v: Result<(), AuthError>, cm: C|
                {
                    &&& #[trigger] call_ensures(self.func(), (&request, context), (v, cm))
                    &&& match v {
                        Ok(u) => self.inner().ens(request, cm, r.0, r.1),
                        Err(e) => r.0 is Err && is_unauthorized_response(r.0->Err_0) && r.1 == cm,
                    }
                },
    {
        proof {
            use_type_invariant(self);
        }
        let (verdict, context) = (self.fauth)(&request, context);
        proof {
            assert(self.func() == self.fauth);
            assert(self.inner() == self.handler);
        }
        match verdict {
            Ok(()) => self.handler.handle(request, context),
            Err(_) => (Err(Response::new(401)), context),
        }
    }
}

} // verus!
