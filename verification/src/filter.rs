//! Pipeline combinators: wrappers that transform a handler's request,
//! success response, failure response, or whole outcome, preserving the
//! short-circuit behaviour of the stages around them.
use vstd::prelude::*;

verus! {

use core::marker::PhantomData;
use crate::handler::{Handled, Handler, Res};
use crate::request::Request;
use crate::response::Response;

/// Transforms the request before the wrapped handler sees it; a transform
/// that fails pre-empts the wrapped handler and its failure response is the
/// outcome.
#[verifier::reject_recursive_types(I)]
#[verifier::reject_recursive_types(FI)]
#[verifier::reject_recursive_types(E)]
#[verifier::reject_recursive_types(C)]
pub struct RequestFilter<
    I,
    FI,
    E,
    C,
    F: Fn(Request<I>, C) -> (Result<Request<FI>, Response<E>>, C),
    H,
> {
    f: F,
    handler: H,
    phantom: PhantomData<(I, FI, E, C)>,
}

impl<
    I,
    FI,
    E,
    C,
    F: Fn(Request<I>, C) -> (Result<Request<FI>, Response<E>>, C),
    H,
> RequestFilter<I, FI, E, C, F, H> {
    #[verifier::type_invariant]
    spec fn inv(self) -> bool {
        forall|req: Request<I>, c: C| call_requires(self.f, (req, c))
    }

    /// The transform applied to each request.
    pub closed spec fn func(&self) -> F {
        self.f
    }

    /// The wrapped handler.
    pub closed spec fn inner(&self) -> H {
        self.handler
    }

    /// Wrap a handler behind a request transform. The transform must be
    /// callable on every request and context.
    pub fn new(f: F, handler: H) -> (r: Self)
        requires
            forall|req: Request<I>, c: C| call_requires(f, (req, c)),
        ensures
            r.func() == f,
            r.inner() == handler,
    {
        Self { f, handler, phantom: PhantomData }
    }
}

impl<
    I,
    FI,
    O,
    E,
    C,
    F: Fn(Request<I>, C) -> (Result<Request<FI>, Response<E>>, C),
    H: Handler<FI, O, E, C>,
> Handler<I, O, E, C> for RequestFilter<I, FI, E, C, F, H> {
    open spec fn ens(&self, request: Request<I>, c0: C, r: Res<O, E>, c1: C) -> bool {
        exists|m: Result<Request<FI>, Response<E>>, cm: C|
            {
                &&& #[trigger] call_ensures(self.func(), (request, c0), (m, cm))
                &&& match m {
                    Ok(freq) => self.inner().ens(freq, cm, r, c1),
                    Err(resp) => r == Res::<O, E>::Err(resp) && c1 == cm,
                }
            }
    }

    /// Transform the request; on failure the failure response is the
    /// outcome and the wrapped handler never runs.
    fn handle(&self, request: Request<I>, context: C) -> (r: Handled<O, E, C>)
        ensures
            self.ens(request, context, r.0, r.1),
            exists|m: Result<Request<FI>, Response<E>>, cm: C|
                {
                    &&& #[trigger] call_ensures(self.func(), (request, context), (m, cm))
                    &&& match m {
                        Ok(freq) => self.inner().ens(freq, cm, r.0, r.1),
                        Err(resp) => r.0 == Res::<O, E>::Err(resp) && r.1 == cm,
                    }
                },
    {
        proof {
            use_type_invariant(self);
        }
        let (m, context) = (self.f)(request, context);
        proof {
            assert(self.func() == self.f);
            assert(self.inner() == self.handler);
        }
        match m {
            Ok(freq) => self.handler.handle(freq, context),
            Err(resp) => (Err(resp), context),
        }
    }
}

/// Transforms the success response of the wrapped handler; failures pass
/// through unchanged.
#[verifier::reject_recursive_types(O)]
#[verifier::reject_recursive_types(FO)]
#[verifier::reject_recursive_types(C)]
pub struct ResponseFilter<O, FO, C, F: Fn(Response<O>, C) -> (Response<FO>, C), H> {
    f: F,
    handler: H,
    phantom: PhantomData<(O, FO, C)>,
}

impl<O, FO, C, F: Fn(Response<O>, C) -> (Response<FO>, C), H> ResponseFilter<O, FO, C, F, H> {
    #[verifier::type_invariant]
    spec fn inv(self) -> bool {
        forall|resp: Response<O>, c: C| call_requires(self.f, (resp, c))
    }

    /// The transform applied to each success response.
    pub closed spec fn func(&self) -> F {
        self.f
    }

    /// The wrapped handler.
    pub closed spec fn inner(&self) -> H {
        self.handler
    }

    /// Wrap a handler behind a success-response transform. The transform
    /// must be callable on every response and context.
    pub fn new(f: F, handler: H) -> (r: Self)
        requires
            forall|resp: Response<O>, c: C| call_requires(f, (resp, c)),
        ensures
            r.func() == f,
            r.inner() == handler,
    {
        Self { f, handler, phantom: PhantomData }
    }
}

impl<
    I,
    O,
    FO,
    E,
    C,
    F: Fn(Response<O>, C) -> (Response<FO>, C),
    H: Handler<I, O, E, C>,
> Handler<I, FO, E, C> for ResponseFilter<O, FO, C, F, H> {
    open spec fn ens(&self, request: Request<I>, c0: C, r: Res<FO, E>, c1: C) -> bool {
        exists|m: Res<O, E>, cm: C|
            {
                &&& #[trigger] self.inner().ens(request, c0, m, cm)
                &&& match m {
                    Ok(resp) => r is Ok && call_ensures(
                        self.func(),
                        (resp, cm),
                        (r->Ok_0, c1),
                    ),
                    Err(resp) => r == Res::<FO, E>::Err(resp) && c1 == cm,
                }
            }
    }

    /// Run the wrapped handler, then transform a success outcome; a failure
    /// passes through unchanged.
    fn handle(&self, request: Request<I>, context: C) -> (r: Handled<FO, E, C>)
        ensures
            self.ens(request, context, r.0, r.1),
            exists|m: Res<O, E>, cm: C|
                {
                    &&& #[trigger] self.inner().ens(request, context, m, cm)
                    &&& match m {
                        Ok(resp) => r.0 is Ok && call_ensures(
                            self.func(),
                            (resp, cm),
                            (r.0->Ok_0, r.1),
                        ),
                        Err(resp) => r.0 == Res::<FO, E>::Err(resp) && r.1 == cm,
                    }
                },
    {
        proof {
            use_type_invariant(self);
        }
        let (m, context) = self.handler.handle(request, context);
        proof {
            assert(self.func() == self.f);
            assert(self.inner() == self.handler);
        }
        match m {
            Ok(resp) => {
                let (fresp, context) = (self.f)(resp, context);
                (Ok(fresp), context)
            },
            Err(resp) => (Err(resp), context),
        }
    }
}

/// Transforms the failure response of the wrapped handler; successes pass
/// through unchanged.
#[verifier::reject_recursive_types(FE)]
#[verifier::reject_recursive_types(E)]
#[verifier::reject_recursive_types(C)]
pub struct ErrorFilter<FE, E, C, F: Fn(Response<FE>, C) -> (Response<E>, C), H> {
    f: F,
    handler: H,
    phantom: PhantomData<(FE, E, C)>,
}

impl<FE, E, C, F: Fn(Response<FE>, C) -> (Response<E>, C), H> ErrorFilter<FE, E, C, F, H> {
    #[verifier::type_invariant]
    spec fn inv(self) -> bool {
        forall|resp: Response<FE>, c: C| call_requires(self.f, (resp, c))
    }

    /// The transform applied to each failure response.
    pub closed spec fn func(&self) -> F {
        self.f
    }

    /// The wrapped handler.
    pub closed spec fn inner(&self) -> H {
        self.handler
    }

    /// Wrap a handler behind a failure-response transform. The transform
    /// must be callable on every response and context.
    pub fn new(f: F, handler: H) -> (r: Self)
        requires
            forall|resp: Response<FE>, c: C| call_requires(f, (resp, c)),
        ensures
            r.func() == f,
            r.inner() == handler,
    {
        Self { f, handler, phantom: PhantomData }
    }
}

impl<
    I,
    O,
    FE,
    E,
    C,
    F: Fn(Response<FE>, C) -> (Response<E>, C),
    H: Handler<I, O, FE, C>,
> Handler<I, O, E, C> for ErrorFilter<FE, E, C, F, H> {
    open spec fn ens(&self, request: Request<I>, c0: C, r: Res<O, E>, c1: C) -> bool {
        exists|m: Res<O, FE>, cm: C|
            {
                &&& #[trigger] self.inner().ens(request, c0, m, cm)
                &&& match m {
                    Ok(resp) => r == Res::<O, E>::Ok(resp) && c1 == cm,
                    Err(resp) => r is Err && call_ensures(
                        self.func(),
                        (resp, cm),
                        (r->Err_0, c1),
                    ),
                }
            }
    }

    /// Run the wrapped handler, then transform a failure outcome; a success
    /// passes through unchanged.
    fn handle(&self, request: Request<I>, context: C) -> (r: Handled<O, E, C>)
        ensures
            self.ens(request, context, r.0, r.1),
            exists|m: Res<O, FE>, cm: C|
                {
                    &&& #[trigger] self.inner().ens(request, context, m, cm)
                    &&& match m {
                        Ok(resp) => r.0 == Res::<O, E>::Ok(resp) && r.1 == cm,
                        Err(resp) => r.0 is Err && call_ensures(
                            self.func(),
                            (resp, cm),
                            (r.0->Err_0, r.1),
                        ),
                    }
                },
    {
        proof {
            use_type_invariant(self);
        }
        let (m, context) = self.handler.handle(request, context);
        proof {
            assert(self.func() == self.f);
            assert(self.inner() == self.handler);
        }
        match m {
            Ok(resp) => (Ok(resp), context),
            Err(resp) => {
                let (fresp, context) = (self.f)(resp, context);
                (Err(fresp), context)
            },
        }
    }
}

/// Transforms the whole outcome of the wrapped handler: the one combinator
/// able to turn a success into a failure or a failure into a success.
#[verifier::reject_recursive_types(O)]
#[verifier::reject_recursive_types(E)]
#[verifier::reject_recursive_types(FO)]
#[verifier::reject_recursive_types(FE)]
#[verifier::reject_recursive_types(C)]
pub struct ResFilter<O, E, FO, FE, C, F: Fn(Res<O, E>, C) -> (Res<FO, FE>, C), H> {
    f: F,
    handler: H,
    phantom: PhantomData<(O, E, FO, FE, C)>,
}

impl<O, E, FO, FE, C, F: Fn(Res<O, E>, C) -> (Res<FO, FE>, C), H> ResFilter<O, E, FO, FE, C, F, H> {
    #[verifier::type_invariant]
    spec fn inv(self) -> bool {
        forall|m: Res<O, E>, c: C| call_requires(self.f, (m, c))
    }

    /// The transform applied to each outcome.
    pub closed spec fn func(&self) -> F {
        self.f
    }

    /// The wrapped handler.
    pub closed spec fn inner(&self) -> H {
        self.handler
    }

    /// Wrap a handler behind an outcome transform. The transform must be
    /// callable on every outcome and context.
    pub fn new(f: F, handler: H) -> (r: Self)
        requires
            forall|m: Res<O, E>, c: C| call_requires(f, (m, c)),
        ensures
            r.func() == f,
            r.inner() == handler,
    {
        Self { f, handler, phantom: PhantomData }
    }
}

impl<
    I,
    O,
    E,
    FO,
    FE,
    C,
    F: Fn(Res<O, E>, C) -> (Res<FO, FE>, C),
    H: Handler<I, O, E, C>,
> Handler<I, FO, FE, C> for ResFilter<O, E, FO, FE, C, F, H> {
    open spec fn ens(&self, request: Request<I>, c0: C, r: Res<FO, FE>, c1: C) -> bool {
        exists|m: Res<O, E>, cm: C|
            {
                &&& #[trigger] self.inner().ens(request, c0, m, cm)
                &&& call_ensures(self.func(), (m, cm), (r, c1))
            }
    }

    /// Run the wrapped handler, then transform whatever outcome it yielded.
    fn handle(&self, request: Request<I>, context: C) -> (r: Handled<FO, FE, C>)
        ensures
            self.ens(request, context, r.0, r.1),
            exists|m: Res<O, E>, cm: C|
                {
                    &&& #[trigger] self.inner().ens(request, context, m, cm)
                    &&& call_ensures(self.func(), (m, cm), (r.0, r.1))
                },
    {
        proof {
            use_type_invariant(self);
        }
        let (m, context) = self.handler.handle(request, context);
        proof {
            assert(self.func() == self.f);
            assert(self.inner() == self.handler);
        }
        let out = (self.f)(m, context);
        proof {
            assert(out == (out.0, out.1));
        }
        out
    }
}

} // verus!
