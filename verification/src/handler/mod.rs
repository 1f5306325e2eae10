//! The handler capability: one unit of request processing, composable with
//! the filters, the authenticator, the negotiation wrappers and the router.
use vstd::prelude::*;

verus! {

use core::marker::PhantomData;
use crate::request::Request;
use crate::response::Response;

/// The outcome of handling a request: a success response or a failure
/// response, each with its own payload type.
pub type Res<O, E> = Result<Response<O>, Response<E>>;

/// The outcome together with the per-request context handed back by the
/// handler.
pub type Handled<O, E, C> = (Res<O, E>, C);

/// An HTTP application is made of handlers, composed together. A handler
/// takes a typed request and the per-request context, and yields a success
/// or failure response along with the context.
///
/// Each implementation states what its outcome satisfies in `ens`; `handle`
/// promises exactly that.
pub trait Handler<I, O, E, C>: Sized {
    /// What holds of the outcome: `r` and the final context `c1` against the
    /// request and the initial context `c0`.
    spec fn ens(&self, request: Request<I>, c0: C, r: Res<O, E>, c1: C) -> bool;

    /// Handle one request.
    fn handle(&self, request: Request<I>, context: C) -> (r: Handled<O, E, C>)
        ensures
            self.ens(request, context, r.0, r.1),
    ;
}

/// A handler made from a plain function or closure over the request and the
/// context. The function must be callable on every request and context.
#[verifier::reject_recursive_types(I)]
#[verifier::reject_recursive_types(O)]
#[verifier::reject_recursive_types(E)]
#[verifier::reject_recursive_types(C)]
pub struct FnHandler<I, O, E, C, F: Fn(Request<I>, C) -> Handled<O, E, C>> {
    f: F,
    phantom: PhantomData<(I, O, E, C)>,
}

impl<I, O, E, C, F: Fn(Request<I>, C) -> Handled<O, E, C>> FnHandler<I, O, E, C, F> {
    #[verifier::type_invariant]
    spec fn inv(self) -> bool {
        forall|req: Request<I>, c: C| call_requires(self.f, (req, c))
    }

    /// The wrapped function.
    pub closed spec fn func(&self) -> F {
        self.f
    }

    /// Wrap a function as a handler. The function must be callable on every
    /// request and context.
    pub fn new(f: F) -> (r: Self)
        requires
            forall|req: Request<I>, c: C| call_requires(f, (req, c)),
        ensures
            r.func() == f,
    {
        FnHandler { f, phantom: PhantomData }
    }
}

impl<I, O, E, C, F: Fn(Request<I>, C) -> Handled<O, E, C>> Handler<I, O, E, C> for FnHandler<
    I,
    O,
    E,
    C,
    F,
> {
    open spec fn ens(&self, request: Request<I>, c0: C, r: Res<O, E>, c1: C) -> bool {
        call_ensures(self.func(), (request, c0), (r, c1))
    }

    /// Apply the wrapped function; the outcome is whatever it returns.
    fn handle(&self, request: Request<I>, context: C) -> (r: Handled<O, E, C>)
        ensures
            self.ens(request, context, r.0, r.1),
            call_ensures(self.func(), (request, context), r),
    {
        proof {
            use_type_invariant(self);
        }
        let out = (self.f)(request, context);
        proof {
            assert(self.func() == self.f);
            assert(out == (out.0, out.1));
        }
        out
    }
}

} // verus!
