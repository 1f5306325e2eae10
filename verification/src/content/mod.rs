//! Content negotiation: media-type registries that decode request payloads
//! by the declared `Content-Type` and encode response payloads by the
//! quality-ordered `Accept` preferences, wrapped around a handler. The
//! satisfiability of `Accept` is checked before the wrapped handler runs, so
//! an unsatisfiable request never triggers its side effects.
use vstd::prelude::*;

pub mod mediatypes;

verus! {

use vstd::string::StringExecFns;
use crate::handler::{Handled, Handler, Res};
use crate::request::header::{Accept, ContentType, HeaderParseError, MediaTypePreference};
use crate::request::Request;
use crate::response::{status, Response};

/// Why negotiation or payload conversion failed.
#[derive(Debug)]
pub enum Error {
    /// A registered codec failed on the payload.
    Serialization(SerializationError),
    /// No registered codec fits the declared or requested media type; holds
    /// the declared type where one was named.
    UnsupportedMediaType(Option<String>),
    /// A negotiation header did not parse.
    HeaderParse(HeaderParseError),
}

/// Why a codec failed on a payload.
#[derive(Debug)]
pub struct SerializationError {
    reason: String,
}

impl View for SerializationError {
    type V = Seq<char>;

    closed spec fn view(&self) -> Seq<char> {
        self.reason@
    }
}

impl SerializationError {
    /// Record why a payload could not be converted.
    pub fn new(reason: &str) -> (r: Self)
        ensures
            r@ == reason@,
    {
        Self { reason: reason.to_owned() }
    }

    /// The recorded reason.
    pub fn reason(&self) -> (r: &String)
        ensures
            r@ == self@,
    {
        &self.reason
    }
}

/// A named media type, such as `application/json`, for registering codecs.
pub trait MediaType {
    /// The type part, as characters.
    spec fn spec_mime_type() -> Seq<char>;

    /// The subtype part, as characters.
    spec fn spec_mime_subtype() -> Seq<char>;

    /// The type part, such as `application`.
    fn mime_type() -> (r: String)
        ensures
            r@ == Self::spec_mime_type(),
    ;

    /// The subtype part, such as `json`.
    fn mime_subtype() -> (r: String)
        ensures
            r@ == Self::spec_mime_subtype(),
    ;

    /// The whole name, `type/subtype`.
    fn media_type() -> (r: String)
        ensures
            r@ == Self::spec_mime_type() + "/"@ + Self::spec_mime_subtype(),
    {
        let mut s = Self::mime_type();
        s.append("/");
        s.append(Self::mime_subtype().as_str());
        s
    }
}

/// Something that accepts or rejects a concrete media type: an `Accept`
/// preference with wildcards, or a declared `Content-Type` by exact match.
pub trait MediaTypeMatch {
    /// Which media types this matcher accepts.
    spec fn accepts_spec(&self, mime_type: Seq<char>, mime_subtype: Seq<char>) -> bool;

    /// Whether the matcher accepts the given media type.
    fn matches(&self, mime_type: &str, mime_subtype: &str) -> (r: bool)
        ensures
            r == self.accepts_spec(mime_type@, mime_subtype@),
    ;
}

impl MediaTypeMatch for MediaTypePreference {
    open spec fn accepts_spec(&self, mime_type: Seq<char>, mime_subtype: Seq<char>) -> bool {
        self.accepts(mime_type, mime_subtype)
    }

    /// A `*` type accepts anything; a concrete type with a `*` subtype
    /// accepts every subtype of that type.
    fn matches(&self, mime_type: &str, mime_subtype: &str) -> (r: bool)
        ensures
            r == self.accepts_spec(mime_type@, mime_subtype@),
    {
        if crate::text::str_eq(self.mime_type.as_str(), "*") {
            true
        } else if crate::text::str_eq(self.mime_type.as_str(), mime_type) {
            crate::text::str_eq(self.mime_subtype.as_str(), "*") || crate::text::str_eq(
                self.mime_subtype.as_str(),
                mime_subtype,
            )
        } else {
            false
        }
    }
}

impl MediaTypeMatch for ContentType {
    open spec fn accepts_spec(&self, mime_type: Seq<char>, mime_subtype: Seq<char>) -> bool {
        self.accepts(mime_type, mime_subtype)
    }

    /// The declared type accepts exactly itself; no wildcards on the
    /// request side.
    fn matches(&self, mime_type: &str, mime_subtype: &str) -> (r: bool)
        ensures
            r == self.accepts_spec(mime_type@, mime_subtype@),
    {
        crate::text::str_eq(self.mime_type.as_str(), mime_type) && crate::text::str_eq(
            self.mime_subtype.as_str(),
            mime_subtype,
        )
    }
}

/// Registered codec entries as their media-type names.
pub open spec fn choices_view<T>(v: Seq<(String, String, T)>) -> Seq<(Seq<char>, Seq<char>)> {
    v.map_values(|c: (String, String, T)| (c.0@, c.1@))
}

/// The position of the first registered media type a matcher accepts.
pub open spec fn first_accepted<M: MediaTypeMatch>(
    m: &M,
    cs: Seq<(Seq<char>, Seq<char>)>,
) -> Option<int>
    decreases cs.len(),
{
    if cs.len() == 0 {
        None
    } else if m.accepts_spec(cs[0].0, cs[0].1) {
        Some(0int)
    } else {
        match first_accepted(m, cs.drop_first()) {
            None => None,
            Some(j) => Some(j + 1),
        }
    }
}

/// Where no entry among the first `i` is accepted and entry `i` is, the
/// first accepted entry is at `i`.
proof fn lemma_first_accepted_at<M: MediaTypeMatch>(
    m: &M,
    cs: Seq<(Seq<char>, Seq<char>)>,
    i: int,
)
    requires
        0 <= i < cs.len(),
        forall|k: int| 0 <= k < i ==> !m.accepts_spec(#[trigger] cs[k].0, cs[k].1),
        m.accepts_spec(cs[i].0, cs[i].1),
    ensures
        first_accepted(m, cs) == Some(i),
    decreases i,
{
    if i > 0 {
        lemma_first_accepted_at(m, cs.drop_first(), i - 1);
    }
}

/// Where no entry is accepted, there is no first accepted entry.
proof fn lemma_first_accepted_none<M: MediaTypeMatch>(m: &M, cs: Seq<(Seq<char>, Seq<char>)>)
    requires
        forall|k: int| 0 <= k < cs.len() ==> !m.accepts_spec(#[trigger] cs[k].0, cs[k].1),
    ensures
        first_accepted(m, cs) is None,
    decreases cs.len(),
{
    if cs.len() > 0 {
        lemma_first_accepted_none(m, cs.drop_first());
    }
}

/// The position of the first registered entry the matcher accepts, and its
/// item.
#[verifier::loop_isolation(false)]
pub fn match_media_type<M: MediaTypeMatch, T>(media_type: &M, choices: &Vec<(String, String, T)>)
    -> (r: Option<usize>)
    ensures
        match r {
            Some(j) => first_accepted(media_type, choices_view(choices@)) == Some(j as int) && j
                < choices@.len(),
            None => first_accepted(media_type, choices_view(choices@)) is None,
        },
{
    let ghost cs = choices_view(choices@);
    proof {
        assert(cs.len() == choices@.len());
        assert(forall|k: int| 0 <= k < choices@.len() ==> #[trigger] cs[k] == (
            choices@[k].0@,
            choices@[k].1@,
        ));
    }
    let mut i: usize = 0;
    while i < choices.len()
        invariant
            0 <= i <= choices@.len(),
            forall|k: int| 0 <= k < i ==> !media_type.accepts_spec(#[trigger] cs[k].0, cs[k].1),
        decreases choices@.len() - i,
    {
        if media_type.matches(choices[i].0.as_str(), choices[i].1.as_str()) {
            proof {
                lemma_first_accepted_at(media_type, cs, i as int);
            }
            return Some(i);
        }
        i = i + 1;
    }
    proof {
        lemma_first_accepted_none(media_type, cs);
    }
    None
}

/// The entry chosen for a preference list: for each preference in list
/// order, the first registered entry it accepts; the first preference that
/// accepts anything decides.
pub open spec fn select_by_prefs(
    prefs: Seq<MediaTypePreference>,
    cs: Seq<(Seq<char>, Seq<char>)>,
) -> Option<int>
    decreases prefs.len(),
{
    if prefs.len() == 0 {
        None
    } else {
        match first_accepted(&prefs[0], cs) {
            Some(j) => Some(j),
            None => select_by_prefs(prefs.drop_first(), cs),
        }
    }
}

/// The entry chosen for a request: by its preferences where it named any,
/// else the default entry where one was registered.
pub open spec fn spec_selected(
    cs: Seq<(Seq<char>, Seq<char>)>,
    default_idx: Option<usize>,
    accept: Option<Accept>,
) -> Option<int> {
    match accept {
        Some(a) => select_by_prefs(a.prefs@, cs),
        None => match default_idx {
            Some(d) => if 0 <= d < cs.len() {
                Some(d as int)
            } else {
                None
            },
            None => None,
        },
    }
}

/// Where no preference among the first `i` accepts any entry, the selection
/// is decided by the rest.
proof fn lemma_select_skip(
    prefs: Seq<MediaTypePreference>,
    cs: Seq<(Seq<char>, Seq<char>)>,
    i: int,
)
    requires
        0 <= i <= prefs.len(),
        forall|k: int| 0 <= k < i ==> first_accepted(&prefs[k], cs) is None,
    ensures
        select_by_prefs(prefs, cs) == select_by_prefs(prefs.skip(i), cs),
    decreases i,
{
    if i > 0 {
        assert(first_accepted(&prefs[0], cs) is None);
        assert forall|k: int| 0 <= k < i - 1 implies first_accepted(
            &prefs.drop_first()[k],
            cs,
        ) is None by {
            assert(prefs.drop_first()[k] == prefs[k + 1]);
            assert(first_accepted(&prefs[k + 1], cs) is None);
        }
        lemma_select_skip(prefs.drop_first(), cs, i - 1);
        assert(prefs.drop_first().skip(i - 1) =~= prefs.skip(i));
    } else {
        assert(prefs.skip(0) =~= prefs);
    }
}

/// Find the registry entry chosen by an optional preference list, trying
/// the preferences in list order, or falling back on the default entry.
#[verifier::loop_isolation(false)]
fn select_entry<T>(
    choices: &Vec<(String, String, T)>,
    default_idx: Option<usize>,
    accept: &Option<Accept>,
) -> (r: Option<usize>)
    ensures
        match r {
            Some(j) => spec_selected(choices_view(choices@), default_idx, *accept) == Some(
                j as int,
            ) && j < choices@.len(),
            None => spec_selected(choices_view(choices@), default_idx, *accept) is None,
        },
{
    let ghost cs = choices_view(choices@);
    match accept {
        Some(a) => {
            let mut i: usize = 0;
            while i < a.prefs.len()
                invariant
                    0 <= i <= a.prefs@.len(),
                    forall|k: int| 0 <= k < i ==> first_accepted(&a.prefs@[k], cs) is None,
                decreases a.prefs@.len() - i,
            {
                proof {
                    assert(a.prefs@.skip(i as int)[0] == a.prefs@[i as int]);
                }
                match match_media_type(&a.prefs[i], choices) {
                    Some(j) => {
                        proof {
                            lemma_select_skip(a.prefs@, cs, i as int);
                        }
                        return Some(j);
                    },
                    None => {
                        i = i + 1;
                    },
                }
            }
            proof {
                lemma_select_skip(a.prefs@, cs, a.prefs@.len() as int);
            }
            None
        },
        None => match default_idx {
            Some(d) => {
                if d < choices.len() {
                    Some(d)
                } else {
                    None
                }
            },
            None => None,
        },
    }
}

/// What a bare failure response with the given status looks like.
pub open spec fn is_bare_response<E>(resp: Response<E>, code: u16) -> bool {
    &&& resp.status_code == code
    &&& resp.status@ == status::spec_default(code)
    &&& resp.spec_headers() == Seq::<(Seq<char>, Seq<char>)>::empty()
    &&& resp.payload is None
}

/// A codec that renders a payload as bytes. `serialize_rel` states what the
/// implementation may return; the library quantifies over it.
pub trait Serialize<O> {
    /// Which outcomes `serialize` may yield on a payload.
    spec fn serialize_rel(&self, payload: O, r: Result<Vec<u8>, SerializationError>) -> bool;

    /// Render one payload as bytes, or say why that failed.
    fn serialize(&self, payload: O) -> (r: Result<Vec<u8>, SerializationError>)
        ensures
            self.serialize_rel(payload, r),
    ;
}

/// A codec that reads a payload out of bytes. `deserialize_rel` states what
/// the implementation may return; the library quantifies over it.
pub trait Deserialize<I> {
    /// Which outcomes `deserialize` may yield on input bytes.
    spec fn deserialize_rel(&self, bytes: Vec<u8>, r: Result<I, SerializationError>) -> bool;

    /// Read a payload out of bytes, or say why that failed.
    fn deserialize(&self, bytes: Vec<u8>) -> (r: Result<I, SerializationError>)
        ensures
            self.deserialize_rel(bytes, r),
    ;
}

/// How the fields of a payload-free raw response relate to the response it
/// came from.
pub open spec fn is_raw_of<A, E>(raw: Response<Vec<u8>>, resp: Response<A>) -> bool {
    &&& raw.status_code == resp.status_code
    &&& raw.status == resp.status
    &&& raw.spec_headers() == resp.spec_headers()
    &&& raw.payload is None
}

/// What encoding a response through registry entry `j` yields: a response
/// without payload passes through payload-free; one with a payload carries
/// the codec's bytes and a `Content-Type` header naming the entry; a codec
/// failure is a bare 500.
pub open spec fn encoded_outcome<A, S: Serialize<A>, E>(
    entries: Seq<(String, String, S)>,
    j: int,
    resp: Response<A>,
    r: Res<Vec<u8>, E>,
) -> bool {
    match resp.payload {
        None => r is Ok && is_raw_of::<A, E>(r->Ok_0, resp),
        Some(p) => {
            &&& (r is Ok ==> {
                &&& r->Ok_0.payload is Some
                &&& entries[j].2.serialize_rel(
                    p,
                    Result::<Vec<u8>, SerializationError>::Ok(r->Ok_0.payload->Some_0),
                )
                &&& r->Ok_0.status_code == resp.status_code
                &&& r->Ok_0.status == resp.status
                &&& r->Ok_0.spec_headers() == resp.spec_headers().push(
                    ("Content-Type"@, entries[j].0@ + "/"@ + entries[j].1@),
                )
            })
            &&& (r is Err ==> is_bare_response(r->Err_0, 500) && (exists|e: SerializationError|
                #[trigger] entries[j].2.serialize_rel(
                    p,
                    Result::<Vec<u8>, SerializationError>::Err(e),
                )))
        },
    }
}

/// What encoding a response yields, at the level of `serialize`'s own
/// result: no choosable entry is `UnsupportedMediaType`; with a chosen
/// entry, a payload-free response passes through payload-free, and a
/// payload is rendered by the entry's codec, a failure of which is a
/// `Serialization` error.
pub open spec fn spec_serialize_result<A, S: Serialize<A>>(
    entries: Seq<(String, String, S)>,
    default_idx: Option<usize>,
    accept: Option<Accept>,
    response: Response<A>,
    r: Result<Response<Vec<u8>>, Error>,
) -> bool {
    match spec_selected(choices_view(entries), default_idx, accept) {
        None => r is Err && r->Err_0 is UnsupportedMediaType
            && r->Err_0->UnsupportedMediaType_0 is None,
        Some(j) => match response.payload {
            None => r is Ok && is_raw_of::<A, Error>(r->Ok_0, response),
            Some(p) => {
                &&& (r is Ok ==> {
                    &&& r->Ok_0.payload is Some
                    &&& entries[j].2.serialize_rel(
                        p,
                        Result::<Vec<u8>, SerializationError>::Ok(r->Ok_0.payload->Some_0),
                    )
                    &&& r->Ok_0.status_code == response.status_code
                    &&& r->Ok_0.status == response.status
                    &&& r->Ok_0.spec_headers() == response.spec_headers().push(
                        ("Content-Type"@, entries[j].0@ + "/"@ + entries[j].1@),
                    )
                })
                &&& (r is Err ==> {
                    &&& r->Err_0 is Serialization
                    &&& entries[j].2.serialize_rel(
                        p,
                        Result::<Vec<u8>, SerializationError>::Err(r->Err_0->Serialization_0),
                    )
                })
            },
        },
    }
}

/// How an optional parsed `Accept` header relates to a request's headers.
pub open spec fn accept_rel<I>(request: Request<I>, acc: Option<Accept>) -> bool {
    match acc {
        Some(a) => crate::request::header_find(
            crate::text::pairs_view(request.headers@),
            "accept"@,
        ) is Some && crate::request::header::prefs_view(a.prefs@)
            == crate::request::header::spec_accept(
            crate::request::header_find(
                crate::text::pairs_view(request.headers@),
                "accept"@,
            )->Some_0,
        ),
        None => crate::request::header_find(
            crate::text::pairs_view(request.headers@),
            "accept"@,
        ) is None,
    }
}

/// Serializes the success payload of the wrapped handler by the request's
/// `Accept` preferences. The chosen codec is fixed before the wrapped
/// handler runs: an unsatisfiable `Accept` is answered 406 at once.
pub struct MediaTypeSerializer<O, H, S> {
    handler: H,
    serializers: Vec<(String, String, S)>,
    default_serializer: Option<usize>,
    phantom: core::marker::PhantomData<O>,
}

impl<O, H, S> MediaTypeSerializer<O, H, S> {
    /// The wrapped handler.
    pub closed spec fn inner(&self) -> H {
        self.handler
    }

    /// The registered entries, in registration order.
    pub closed spec fn entries(&self) -> Seq<(String, String, S)> {
        self.serializers@
    }

    /// The position of the default entry, where one was registered.
    pub closed spec fn default_idx(&self) -> Option<usize> {
        self.default_serializer
    }

    /// Wrap a handler with an empty encoder registry.
    pub fn new(handler: H) -> (r: Self)
        ensures
            r.inner() == handler,
            r.entries() == Seq::<(String, String, S)>::empty(),
            r.default_idx() is None,
    {
        let r = Self {
            handler,
            serializers: Vec::<(String, String, S)>::new(),
            default_serializer: None,
            phantom: core::marker::PhantomData,
        };
        proof {
            assert(r.entries() =~= Seq::<(String, String, S)>::empty());
        }
        r
    }

    /// Register an encoder for a media type, after all entries so far;
    /// where `default` is set it becomes the entry used absent an `Accept`
    /// header.
    pub fn with_media_type<M: MediaType>(self, codec: S, default: bool) -> (r: Self)
        ensures
            r.inner() == self.inner(),
            r.entries().len() == self.entries().len() + 1,
            r.entries().last().0@ == M::spec_mime_type(),
            r.entries().last().1@ == M::spec_mime_subtype(),
            r.entries().last().2 == codec,
            forall|k: int| 0 <= k < self.entries().len() ==> #[trigger] r.entries()[k]
                == self.entries()[k],
            r.default_idx() == if default {
                Some(self.entries().len() as usize)
            } else {
                self.default_idx()
            },
    {
        let mut serializers = self.serializers;
        let idx = serializers.len();
        serializers.push((M::mime_type(), M::mime_subtype(), codec));
        let default_serializer = if default {
            Some(idx)
        } else {
            self.default_serializer
        };
        Self {
            handler: self.handler,
            serializers,
            default_serializer,
            phantom: core::marker::PhantomData,
        }
    }

    /// The registry entry the request's preferences choose, if any.
    fn get_serializer(&self, accept: &Option<Accept>) -> (r: Option<usize>)
        ensures
            match r {
                Some(j) => spec_selected(choices_view(self.entries()), self.default_idx(), *accept)
                    == Some(j as int) && j < self.entries().len(),
                None => spec_selected(
                    choices_view(self.entries()),
                    self.default_idx(),
                    *accept,
                ) is None,
            },
    {
        select_entry(&self.serializers, self.default_serializer, accept)
    }

    /// Encode a response through the entry the preferences choose: no
    /// choosable entry is `UnsupportedMediaType`, a codec failure is a
    /// `Serialization` error, and a payload-free response passes through
    /// payload-free.
    fn serialize(&self, accept: &Option<Accept>, response: Response<O>) -> (r: Result<
        Response<Vec<u8>>,
        Error,
    >) where S: Serialize<O>
        ensures
            spec_serialize_result(self.entries(), self.default_idx(), *accept, response, r),
    {
        let ghost resp0 = response;
        match self.get_serializer(accept) {
            None => Err(Error::UnsupportedMediaType(None)),
            Some(j) => {
                let Response { status_code, status, headers, payload } = response;
                match payload {
                    None => {
                        let out = Ok(Response { status_code, status, headers, payload: None });
                        proof {
                            assert(spec_serialize_result(
                                self.entries(),
                                self.default_idx(),
                                *accept,
                                resp0,
                                out,
                            ));
                        }
                        out
                    },
                    Some(p) => {
                        let ghost gp = p;
                        let sr = self.serializers[j].2.serialize(p);
                        proof {
                            assert(self.entries()[j as int].2.serialize_rel(gp, sr));
                        }
                        match sr {
                            Ok(bytes) => {
                                let mut ct = self.serializers[j].0.clone();
                                ct.append("/");
                                ct.append(self.serializers[j].1.as_str());
                                proof {
                                    assert(ct@ == self.entries()[j as int].0@ + "/"@
                                        + self.entries()[j as int].1@);
                                }
                                let raw = Response { status_code, status, headers, payload: None };
                                let out = Ok(raw.with_header("Content-Type", ct.as_str())
                                    .with_payload(bytes));
                                proof {
                                    assert(spec_serialize_result(
                                        self.entries(),
                                        self.default_idx(),
                                        *accept,
                                        resp0,
                                        out,
                                    ));
                                }
                                out
                            },
                            Err(e) => {
                                let out = Err::<Response<Vec<u8>>, Error>(Error::Serialization(e));
                                proof {
                                    assert(gp == resp0.payload->Some_0);
                                    assert(sr is Err && sr->Err_0 == e);
                                    assert(out is Err && out->Err_0 is Serialization
                                        && out->Err_0->Serialization_0 == sr->Err_0);
                                    assert(spec_serialize_result(
                                        self.entries(),
                                        self.default_idx(),
                                        *accept,
                                        resp0,
                                        out,
                                    ));
                                }
                                out
                            },
                        }
                    },
                }
            },
        }
    }
}

impl<I, O, E, C, H: Handler<I, O, E, C>, S: Serialize<O>> Handler<I, Vec<u8>, E, C>
    for MediaTypeSerializer<O, H, S> {
    open spec fn ens(&self, request: Request<I>, c0: C, r: Res<Vec<u8>, E>, c1: C) -> bool {
        exists|acc: Option<Accept>|
            {
                &&& #[trigger] accept_rel(request, acc)
                &&& match spec_selected(choices_view(self.entries()), self.default_idx(), acc) {
                    None => r is Err && is_bare_response(r->Err_0, 406) && c1 == c0,
                    Some(j) => exists|m: Res<O, E>, cm: C|
                        {
                            &&& #[trigger] self.inner().ens(request, c0, m, cm)
                            &&& c1 == cm
                            &&& match m {
                                Err(resp) => r == Res::<Vec<u8>, E>::Err(resp),
                                Ok(resp) => encoded_outcome(self.entries(), j, resp, r),
                            }
                        },
                }
            }
    }

    /// Fix the encoder from `Accept` first (406 where none fits, before the
    /// wrapped handler can run), run the wrapped handler, then encode a
    /// success outcome; a failure outcome passes through unchanged.
    fn handle(&self, request: Request<I>, context: C) -> (r: Handled<Vec<u8>, E, C>)
        ensures
            self.ens(request, context, r.0, r.1),
    {
        let ghost req0 = request;
        let ghost c0 = context;
        let accept = match request.accept() {
            Ok(a) => a,
            Err(_) => {
                proof {
                    assert(false);
                }
                None
            },
        };
        let ghost acc = accept;
        proof {
            assert(accept_rel(req0, acc));
        }
        if self.get_serializer(&accept).is_none() {
            let out = (Err(Response::new(406)), context);
            proof {
                assert(self.ens(req0, c0, out.0, out.1));
            }
            return out;
        }
        let (m, context) = self.handler.handle(request, context);
        let ghost gm = m;
        let ghost cm = context;
        proof {
            assert(self.inner() == self.handler);
            assert(self.inner().ens(req0, c0, gm, cm));
        }
        match m {
            Ok(resp) => {
                let ghost gresp = resp;
                let sres = self.serialize(&accept, resp);
                match sres {
                    Ok(o) => {
                        let out = (Ok(o), context);
                        proof {
                            assert(encoded_outcome(self.entries(), spec_selected(
                                choices_view(self.entries()),
                                self.default_idx(),
                                acc,
                            )->Some_0, gresp, out.0));
                            assert(self.ens(req0, c0, out.0, out.1));
                        }
                        (out.0, out.1)
                    },
                    Err(Error::Serialization(_)) => {
                        let out = (Err(Response::new(500)), context);
                        proof {
                            assert(encoded_outcome(self.entries(), spec_selected(
                                choices_view(self.entries()),
                                self.default_idx(),
                                acc,
                            )->Some_0, gresp, out.0));
                            assert(self.ens(req0, c0, out.0, out.1));
                        }
                        (out.0, out.1)
                    },
                    Err(Error::UnsupportedMediaType(_)) => {
                        proof {
                            assert(false);
                        }
                        (Err(Response::new(406)), context)
                    },
                    Err(Error::HeaderParse(_)) => {
                        proof {
                            assert(false);
                        }
                        (Err(Response::new(400)), context)
                    },
                }
            },
            Err(resp) => {
                let out = (Err(resp), context);
                proof {
                    assert(self.ens(req0, c0, out.0, out.1));
                }
                (out.0, out.1)
            },
        }
    }
}

/// What encoding a failure response through entry `j` yields, at the level
/// of the emitted raw response: a payload-free failure passes through
/// payload-free; a payload is rendered by the entry's codec and named by a
/// `Content-Type` header; a codec failure is a bare 500.
pub open spec fn err_encoded_outcome<A, S: Serialize<A>>(
    entries: Seq<(String, String, S)>,
    j: int,
    resp: Response<A>,
    out: Response<Vec<u8>>,
) -> bool {
    match resp.payload {
        None => is_raw_of::<A, ()>(out, resp),
        Some(p) => {
            &&& (out.payload is Some ==> {
                &&& entries[j].2.serialize_rel(
                    p,
                    Result::<Vec<u8>, SerializationError>::Ok(out.payload->Some_0),
                )
                &&& out.status_code == resp.status_code
                &&& out.status == resp.status
                &&& out.spec_headers() == resp.spec_headers().push(
                    ("Content-Type"@, entries[j].0@ + "/"@ + entries[j].1@),
                )
            })
            &&& (out.payload is None ==> is_bare_response(out, 500) && (exists|
                e: SerializationError,
            |
                #[trigger] entries[j].2.serialize_rel(
                    p,
                    Result::<Vec<u8>, SerializationError>::Err(e),
                )))
        },
    }
}

/// Serializes the failure payload of the wrapped handler by the request's
/// `Accept` preferences; success outcomes pass through unchanged. The
/// chosen codec is fixed before the wrapped handler runs: an unsatisfiable
/// `Accept` is answered 406 at once.
pub struct MediaTypeErrorSerializer<E, H, S> {
    handler: H,
    serializers: Vec<(String, String, S)>,
    default_serializer: Option<usize>,
    phantom: core::marker::PhantomData<E>,
}

impl<E, H, S> MediaTypeErrorSerializer<E, H, S> {
    /// The wrapped handler.
    pub closed spec fn inner(&self) -> H {
        self.handler
    }

    /// The registered entries, in registration order.
    pub closed spec fn entries(&self) -> Seq<(String, String, S)> {
        self.serializers@
    }

    /// The position of the default entry, where one was registered.
    pub closed spec fn default_idx(&self) -> Option<usize> {
        self.default_serializer
    }

    /// Wrap a handler with an empty failure-encoder registry.
    pub fn new(handler: H) -> (r: Self)
        ensures
            r.inner() == handler,
            r.entries() == Seq::<(String, String, S)>::empty(),
            r.default_idx() is None,
    {
        let r = Self {
            handler,
            serializers: Vec::<(String, String, S)>::new(),
            default_serializer: None,
            phantom: core::marker::PhantomData,
        };
        proof {
            assert(r.entries() =~= Seq::<(String, String, S)>::empty());
        }
        r
    }

    /// Register a failure encoder for a media type, after all entries so
    /// far; where `default` is set it becomes the entry used absent an
    /// `Accept` header.
    pub fn with_media_type<M: MediaType>(self, codec: S, default: bool) -> (r: Self)
        ensures
            r.inner() == self.inner(),
            r.entries().len() == self.entries().len() + 1,
            r.entries().last().0@ == M::spec_mime_type(),
            r.entries().last().1@ == M::spec_mime_subtype(),
            r.entries().last().2 == codec,
            forall|k: int| 0 <= k < self.entries().len() ==> #[trigger] r.entries()[k]
                == self.entries()[k],
            r.default_idx() == if default {
                Some(self.entries().len() as usize)
            } else {
                self.default_idx()
            },
    {
        let mut serializers = self.serializers;
        let idx = serializers.len();
        serializers.push((M::mime_type(), M::mime_subtype(), codec));
        let default_serializer = if default {
            Some(idx)
        } else {
            self.default_serializer
        };
        Self {
            handler: self.handler,
            serializers,
            default_serializer,
            phantom: core::marker::PhantomData,
        }
    }

    /// The registry entry the request's preferences choose, if any.
    fn get_serializer(&self, accept: &Option<Accept>) -> (r: Option<usize>)
        ensures
            match r {
                Some(j) => spec_selected(choices_view(self.entries()), self.default_idx(), *accept)
                    == Some(j as int) && j < self.entries().len(),
                None => spec_selected(
                    choices_view(self.entries()),
                    self.default_idx(),
                    *accept,
                ) is None,
            },
    {
        select_entry(&self.serializers, self.default_serializer, accept)
    }

    /// Encode a failure response through the entry the preferences choose.
    fn serialize(&self, accept: &Option<Accept>, response: Response<E>) -> (r: Result<
        Response<Vec<u8>>,
        Error,
    >) where S: Serialize<E>
        ensures
            spec_serialize_result(self.entries(), self.default_idx(), *accept, response, r),
    {
        let ghost resp0 = response;
        match self.get_serializer(accept) {
            None => Err(Error::UnsupportedMediaType(None)),
            Some(j) => {
                let Response { status_code, status, headers, payload } = response;
                match payload {
                    None => {
                        let out = Ok(Response { status_code, status, headers, payload: None });
                        proof {
                            assert(spec_serialize_result(
                                self.entries(),
                                self.default_idx(),
                                *accept,
                                resp0,
                                out,
                            ));
                        }
                        out
                    },
                    Some(p) => {
                        let ghost gp = p;
                        let sr = self.serializers[j].2.serialize(p);
                        proof {
                            assert(self.entries()[j as int].2.serialize_rel(gp, sr));
                        }
                        match sr {
                            Ok(bytes) => {
                                let mut ct = self.serializers[j].0.clone();
                                ct.append("/");
                                ct.append(self.serializers[j].1.as_str());
                                proof {
                                    assert(ct@ == self.entries()[j as int].0@ + "/"@
                                        + self.entries()[j as int].1@);
                                }
                                let raw = Response { status_code, status, headers, payload: None };
                                let out = Ok(raw.with_header("Content-Type", ct.as_str())
                                    .with_payload(bytes));
                                proof {
                                    assert(spec_serialize_result(
                                        self.entries(),
                                        self.default_idx(),
                                        *accept,
                                        resp0,
                                        out,
                                    ));
                                }
                                out
                            },
                            Err(e) => {
                                let out = Err::<Response<Vec<u8>>, Error>(Error::Serialization(e));
                                proof {
                                    assert(spec_serialize_result(
                                        self.entries(),
                                        self.default_idx(),
                                        *accept,
                                        resp0,
                                        out,
                                    ));
                                }
                                out
                            },
                        }
                    },
                }
            },
        }
    }
}

impl<I, O, E, C, H: Handler<I, O, E, C>, S: Serialize<E>> Handler<I, O, Vec<u8>, C>
    for MediaTypeErrorSerializer<E, H, S> {
    open spec fn ens(&self, request: Request<I>, c0: C, r: Res<O, Vec<u8>>, c1: C) -> bool {
        exists|acc: Option<Accept>|
            {
                &&& #[trigger] accept_rel(request, acc)
                &&& match spec_selected(choices_view(self.entries()), self.default_idx(), acc) {
                    None => r is Err && is_bare_response(r->Err_0, 406) && c1 == c0,
                    Some(j) => exists|m: Res<O, E>, cm: C|
                        {
                            &&& #[trigger] self.inner().ens(request, c0, m, cm)
                            &&& c1 == cm
                            &&& match m {
                                Ok(resp) => r == Res::<O, Vec<u8>>::Ok(resp),
                                Err(resp) => r is Err && err_encoded_outcome(
                                    self.entries(),
                                    j,
                                    resp,
                                    r->Err_0,
                                ),
                            }
                        },
                }
            }
    }

    /// Fix the failure encoder from `Accept` first (406 where none fits,
    /// before the wrapped handler can run), run the wrapped handler, then
    /// encode a failure outcome; a success outcome passes through.
    fn handle(&self, request: Request<I>, context: C) -> (r: Handled<O, Vec<u8>, C>)
        ensures
            self.ens(request, context, r.0, r.1),
    {
        let ghost req0 = request;
        let ghost c0 = context;
        let accept = match request.accept() {
            Ok(a) => a,
            Err(_) => {
                proof {
                    assert(false);
                }
                None
            },
        };
        let ghost acc = accept;
        proof {
            assert(accept_rel(req0, acc));
        }
        if self.get_serializer(&accept).is_none() {
            let out = (Err(Response::new(406)), context);
            proof {
                assert(self.ens(req0, c0, out.0, out.1));
            }
            return out;
        }
        let (m, context) = self.handler.handle(request, context);
        let ghost gm = m;
        let ghost cm = context;
        proof {
            assert(self.inner() == self.handler);
            assert(self.inner().ens(req0, c0, gm, cm));
        }
        match m {
            Err(resp) => {
                let ghost gresp = resp;
                let sres = self.serialize(&accept, resp);
                match sres {
                    Ok(o) => {
                        let out = (Err(o), context);
                        proof {
                            assert(self.ens(req0, c0, out.0, out.1));
                        }
                        (out.0, out.1)
                    },
                    Err(Error::Serialization(_)) => {
                        let out = (Err(Response::new(500)), context);
                        proof {
                            assert(self.ens(req0, c0, out.0, out.1));
                        }
                        (out.0, out.1)
                    },
                    Err(Error::UnsupportedMediaType(_)) => {
                        proof {
                            assert(false);
                        }
                        (Err(Response::new(406)), context)
                    },
                    Err(Error::HeaderParse(_)) => {
                        proof {
                            assert(false);
                        }
                        (Err(Response::new(400)), context)
                    },
                }
            },
            Ok(resp) => {
                let out = (Ok(resp), context);
                proof {
                    assert(self.ens(req0, c0, out.0, out.1));
                }
                (out.0, out.1)
            },
        }
    }
}

/// How an optional parsed `Content-Type` reading relates to a request's
/// headers: absent, parsed, or present but malformed.
pub open spec fn content_type_rel<T>(
    request: Request<T>,
    r: Result<Option<ContentType>, HeaderParseError>,
) -> bool {
    match r {
        Ok(Some(ct)) => crate::request::header_find(
            crate::text::pairs_view(request.headers@),
            "content-type"@,
        ) is Some && crate::request::header::spec_content_type(
            crate::request::header_find(
                crate::text::pairs_view(request.headers@),
                "content-type"@,
            )->Some_0,
        ) == Some(ct@),
        Ok(None) => crate::request::header_find(
            crate::text::pairs_view(request.headers@),
            "content-type"@,
        ) is None,
        Err(e) => crate::request::header_find(
            crate::text::pairs_view(request.headers@),
            "content-type"@,
        ) is Some && crate::request::header::spec_content_type(
            crate::request::header_find(
                crate::text::pairs_view(request.headers@),
                "content-type"@,
            )->Some_0,
        ) is None,
    }
}

/// The decoder entry chosen for a declared `Content-Type`: the first entry
/// the declared type matches exactly, or the default entry where no type
/// was declared.
pub open spec fn spec_deser_selected(
    cs: Seq<(Seq<char>, Seq<char>)>,
    default_idx: Option<usize>,
    ct: Option<ContentType>,
) -> Option<int> {
    match ct {
        Some(c) => first_accepted(&c, cs),
        None => match default_idx {
            Some(d) => if 0 <= d < cs.len() {
                Some(d as int)
            } else {
                None
            },
            None => None,
        },
    }
}

/// How a request handed to the wrapped handler relates to the raw request:
/// the same in everything but the payload.
pub open spec fn is_decoded_of<I>(req2: Request<I>, request: Request<Vec<u8>>) -> bool {
    &&& req2.method == request.method
    &&& req2.path == request.path
    &&& req2.query == request.query
    &&& req2.fragment == request.fragment
    &&& req2.headers == request.headers
    &&& req2.content_length == request.content_length
    &&& req2.params == request.params
}

/// Whether the decoder at entry `j` can reject the payload.
pub open spec fn decoder_rejects<I, D: Deserialize<I>>(
    entries: Seq<(String, String, D)>,
    j: int,
    body: Vec<u8>,
) -> bool {
    exists|e: SerializationError|
        #[trigger] entries[j].2.deserialize_rel(body, Result::<I, SerializationError>::Err(e))
}

/// Whether the outcome came from the wrapped handler on a request whose
/// payload entry `j` decoded out of the raw body.
pub open spec fn decoded_and_handled<
    I,
    O,
    E,
    C,
    D: Deserialize<I>,
    H: Handler<I, O, E, C>,
>(
    entries: Seq<(String, String, D)>,
    j: int,
    body: Vec<u8>,
    request: Request<Vec<u8>>,
    h: H,
    c0: C,
    r: Res<O, E>,
    c1: C,
) -> bool {
    exists|req2: Request<I>|
        {
            &&& req2.payload is Some
            &&& #[trigger] h.ens(req2, c0, r, c1)
            &&& entries[j].2.deserialize_rel(
                body,
                Result::<I, SerializationError>::Ok(req2.payload->Some_0),
            )
            &&& is_decoded_of(req2, request)
        }
}

/// Decodes the raw request payload by the declared `Content-Type` before
/// the wrapped handler sees it: an undeclared type falls back on the
/// default decoder, an unregistered one is answered 415, and a payload the
/// decoder rejects is answered 400.
pub struct MediaTypeDeserializer<I, H, D> {
    handler: H,
    deserializers: Vec<(String, String, D)>,
    default_deserializer: Option<usize>,
    phantom: core::marker::PhantomData<I>,
}

impl<I, H, D> MediaTypeDeserializer<I, H, D> {
    /// The wrapped handler.
    pub closed spec fn inner(&self) -> H {
        self.handler
    }

    /// The registered entries, in registration order.
    pub closed spec fn entries(&self) -> Seq<(String, String, D)> {
        self.deserializers@
    }

    /// The position of the default entry, where one was registered.
    pub closed spec fn default_idx(&self) -> Option<usize> {
        self.default_deserializer
    }

    /// Wrap a handler with an empty decoder registry.
    pub fn new(handler: H) -> (r: Self)
        ensures
            r.inner() == handler,
            r.entries() == Seq::<(String, String, D)>::empty(),
            r.default_idx() is None,
    {
        let r = Self {
            handler,
            deserializers: Vec::<(String, String, D)>::new(),
            default_deserializer: None,
            phantom: core::marker::PhantomData,
        };
        proof {
            assert(r.entries() =~= Seq::<(String, String, D)>::empty());
        }
        r
    }

    /// Register a decoder for a media type, after all entries so far; where
    /// `default` is set it becomes the entry used absent a `Content-Type`
    /// header.
    pub fn with_media_type<M: MediaType>(self, codec: D, default: bool) -> (r: Self)
        ensures
            r.inner() == self.inner(),
            r.entries().len() == self.entries().len() + 1,
            r.entries().last().0@ == M::spec_mime_type(),
            r.entries().last().1@ == M::spec_mime_subtype(),
            r.entries().last().2 == codec,
            forall|k: int| 0 <= k < self.entries().len() ==> #[trigger] r.entries()[k]
                == self.entries()[k],
            r.default_idx() == if default {
                Some(self.entries().len() as usize)
            } else {
                self.default_idx()
            },
    {
        let mut deserializers = self.deserializers;
        let idx = deserializers.len();
        deserializers.push((M::mime_type(), M::mime_subtype(), codec));
        let default_deserializer = if default {
            Some(idx)
        } else {
            self.default_deserializer
        };
        Self {
            handler: self.handler,
            deserializers,
            default_deserializer,
            phantom: core::marker::PhantomData,
        }
    }

    /// The registry entry the declared `Content-Type` chooses, if any.
    pub fn get_deserializer(&self, content_type: &Option<ContentType>) -> (r: Option<usize>)
        ensures
            match r {
                Some(j) => spec_deser_selected(
                    choices_view(self.entries()),
                    self.default_idx(),
                    *content_type,
                ) == Some(j as int) && j < self.entries().len(),
                None => spec_deser_selected(
                    choices_view(self.entries()),
                    self.default_idx(),
                    *content_type,
                ) is None,
            },
    {
        match content_type {
            Some(ct) => match_media_type(ct, &self.deserializers),
            None => match self.default_deserializer {
                Some(d) => {
                    if d < self.deserializers.len() {
                        Some(d)
                    } else {
                        None
                    }
                },
                None => None,
            },
        }
    }

    /// Decode a raw request into a typed one: a malformed `Content-Type` is
    /// a `HeaderParse` error, an unregistered one an `UnsupportedMediaType`
    /// naming the declared `type/subtype` where one was declared, a
    /// rejected payload a `Serialization` error, and a request without
    /// payload passes through payload-free.
    pub fn deserialize(&self, request: Request<Vec<u8>>) -> (r: Result<Request<I>, Error>) where
        D: Deserialize<I>

        ensures
            exists|ctr: Result<Option<ContentType>, HeaderParseError>|
                {
                    &&& #[trigger] content_type_rel(request, ctr)
                    &&& match ctr {
                        Err(e) => r is Err && r->Err_0 is HeaderParse,
                        Ok(ct) => match spec_deser_selected(
                            choices_view(self.entries()),
                            self.default_idx(),
                            ct,
                        ) {
                            None => {
                                &&& r is Err
                                &&& r->Err_0 is UnsupportedMediaType
                                &&& match ct {
                                    Some(c) => r->Err_0->UnsupportedMediaType_0 is Some
                                        && r->Err_0->UnsupportedMediaType_0->Some_0@ == c@.mime_type
                                        + "/"@ + c@.mime_subtype,
                                    None => r->Err_0->UnsupportedMediaType_0 is None,
                                }
                            },
                            Some(j) => match request.payload {
                                None => r is Ok && r->Ok_0.payload is None && is_decoded_of(
                                    r->Ok_0,
                                    request,
                                ),
                                Some(body) => {
                                    &&& (r is Ok ==> {
                                        &&& r->Ok_0.payload is Some
                                        &&& self.entries()[j].2.deserialize_rel(
                                            body,
                                            Result::<I, SerializationError>::Ok(
                                                r->Ok_0.payload->Some_0,
                                            ),
                                        )
                                        &&& is_decoded_of(r->Ok_0, request)
                                    })
                                    &&& (r is Err ==> {
                                        &&& r->Err_0 is Serialization
                                        &&& self.entries()[j].2.deserialize_rel(
                                            body,
                                            Result::<I, SerializationError>::Err(
                                                r->Err_0->Serialization_0,
                                            ),
                                        )
                                    })
                                },
                            },
                        },
                    }
                },
    {
        let ghost req0 = request;
        let ct = match request.content_type() {
            Ok(ct) => ct,
            Err(e) => {
                let ghost ctr = Result::<Option<ContentType>, HeaderParseError>::Err(e);
                proof {
                    assert(content_type_rel(req0, ctr));
                }
                return Err(Error::HeaderParse(e));
            },
        };
        let ghost ctr = Result::<Option<ContentType>, HeaderParseError>::Ok(ct);
        proof {
            assert(content_type_rel(req0, ctr));
        }
        match self.get_deserializer(&ct) {
            None => {
                let ghost gct = ct;
                let named = match ct {
                    Some(c) => {
                        let ghost gc = c;
                        let mut t = c.mime_type;
                        t.append("/");
                        t.append(c.mime_subtype.as_str());
                        proof {
                            assert(t@ == gc@.mime_type + "/"@ + gc@.mime_subtype);
                        }
                        Some(t)
                    },
                    None => None,
                };
                Err(Error::UnsupportedMediaType(named))
            },
            Some(j) => {
                let Request {
                    method,
                    path,
                    query,
                    fragment,
                    headers,
                    payload,
                    content_length,
                    params,
                } = request;
                match payload {
                    None => Ok(
                        Request {
                            method,
                            path,
                            query,
                            fragment,
                            headers,
                            payload: None,
                            content_length,
                            params,
                        },
                    ),
                    Some(body) => {
                        let ghost gbody = body;
                        let dv = self.deserializers[j].2.deserialize(body);
                        proof {
                            assert(self.entries()[j as int].2.deserialize_rel(gbody, dv));
                        }
                        match dv {
                            Ok(v) => Ok(
                                Request {
                                    method,
                                    path,
                                    query,
                                    fragment,
                                    headers,
                                    payload: Some(v),
                                    content_length,
                                    params,
                                },
                            ),
                            Err(e) => Err(Error::Serialization(e)),
                        }
                    },
                }
            },
        }
    }
}

impl<I, O, E, C, H: Handler<I, O, E, C>, D: Deserialize<I>> Handler<Vec<u8>, O, E, C>
    for MediaTypeDeserializer<I, H, D> {
    open spec fn ens(&self, request: Request<Vec<u8>>, c0: C, r: Res<O, E>, c1: C) -> bool {
        exists|ctr: Result<Option<ContentType>, HeaderParseError>|
            {
                &&& #[trigger] content_type_rel(request, ctr)
                &&& match ctr {
                    Err(e) => r is Err && is_bare_response(r->Err_0, 400) && c1 == c0,
                    Ok(ct) => match spec_deser_selected(
                        choices_view(self.entries()),
                        self.default_idx(),
                        ct,
                    ) {
                        None => r is Err && is_bare_response(r->Err_0, 415) && c1 == c0,
                        Some(j) => match request.payload {
                            None => exists|req2: Request<I>|
                                {
                                    &&& req2.payload is None
                                    &&& is_decoded_of(req2, request)
                                    &&& #[trigger] self.inner().ens(req2, c0, r, c1)
                                },
                            Some(body) => {
                                ||| (decoder_rejects(self.entries(), j, body) && r is Err
                                    && is_bare_response(r->Err_0, 400) && c1 == c0)
                                ||| decoded_and_handled(
                                    self.entries(),
                                    j,
                                    body,
                                    request,
                                    self.inner(),
                                    c0,
                                    r,
                                    c1,
                                )
                            },
                        },
                    },
                }
            }
    }

    /// Decode the payload first; a request that cannot be decoded is
    /// answered 400 (bad payload or malformed header) or 415 (unregistered
    /// type) and never reaches the wrapped handler.
    fn handle(&self, request: Request<Vec<u8>>, context: C) -> (r: Handled<O, E, C>)
        ensures
            self.ens(request, context, r.0, r.1),
    {
        let ghost req0 = request;
        let ghost c0 = context;
        match self.deserialize(request) {
            Ok(req2) => {
                let ghost greq2 = req2;
                proof {
                    assert(self.inner() == self.handler);
                }
                let out = self.handler.handle(req2, context);
                proof {
                    assert(self.inner().ens(greq2, c0, out.0, out.1));
                    assert(self.ens(req0, c0, out.0, out.1));
                }
                out
            },
            Err(Error::Serialization(_)) => {
                let out = (Err(Response::new(400)), context);
                proof {
                    assert(self.ens(req0, c0, out.0, out.1));
                }
                out
            },
            Err(Error::UnsupportedMediaType(_)) => {
                let out = (Err(Response::new(415)), context);
                proof {
                    assert(self.ens(req0, c0, out.0, out.1));
                }
                out
            },
            Err(Error::HeaderParse(_)) => {
                let out = (Err(Response::new(400)), context);
                proof {
                    assert(self.ens(req0, c0, out.0, out.1));
                }
                out
            },
        }
    }
}

/// Decodes the request payload by `Content-Type` and encodes the success
/// payload by `Accept`, around one wrapped handler: the composition of a
/// decoder registry inside an encoder registry. The `Accept` check runs
/// first, so an unsatisfiable request is answered 406 before anything else
/// can happen.
pub struct MediaTypeSerde<I, O, H, S, D> {
    core: MediaTypeSerializer<O, MediaTypeDeserializer<I, H, D>, S>,
}

impl<I, O, H, S, D> MediaTypeSerde<I, O, H, S, D> {
    /// The wrapped handler.
    pub closed spec fn inner(&self) -> H {
        self.core.inner().inner()
    }

    /// The registered encoder entries, in registration order.
    pub closed spec fn ser_entries(&self) -> Seq<(String, String, S)> {
        self.core.entries()
    }

    /// The position of the default encoder entry, where one is registered.
    pub closed spec fn ser_default_idx(&self) -> Option<usize> {
        self.core.default_idx()
    }

    /// The registered decoder entries, in registration order.
    pub closed spec fn deser_entries(&self) -> Seq<(String, String, D)> {
        self.core.inner().entries()
    }

    /// The position of the default decoder entry, where one is registered.
    pub closed spec fn deser_default_idx(&self) -> Option<usize> {
        self.core.inner().default_idx()
    }

    /// The composed negotiation stage around the wrapped handler.
    pub closed spec fn composed(&self) -> MediaTypeSerializer<
        O,
        MediaTypeDeserializer<I, H, D>,
        S,
    > {
        self.core
    }

    /// Wrap a handler with empty encoder and decoder registries.
    pub fn new(handler: H) -> (r: Self)
        ensures
            r.inner() == handler,
            r.ser_entries() == Seq::<(String, String, S)>::empty(),
            r.ser_default_idx() is None,
            r.deser_entries() == Seq::<(String, String, D)>::empty(),
            r.deser_default_idx() is None,
    {
        Self { core: MediaTypeSerializer::new(MediaTypeDeserializer::new(handler)) }
    }

    /// Register an encoder for a media type; where `default` is set it
    /// becomes the encoder used absent an `Accept` header.
    pub fn with_media_type_serial<M: MediaType>(self, codec: S, default: bool) -> (r: Self)
        ensures
            r.inner() == self.inner(),
            r.deser_entries() == self.deser_entries(),
            r.deser_default_idx() == self.deser_default_idx(),
            r.ser_entries().len() == self.ser_entries().len() + 1,
            r.ser_entries().last().0@ == M::spec_mime_type(),
            r.ser_entries().last().1@ == M::spec_mime_subtype(),
            r.ser_entries().last().2 == codec,
            forall|k: int| 0 <= k < self.ser_entries().len() ==> #[trigger] r.ser_entries()[k]
                == self.ser_entries()[k],
            r.ser_default_idx() == if default {
                Some(self.ser_entries().len() as usize)
            } else {
                self.ser_default_idx()
            },
    {
        Self { core: self.core.with_media_type::<M>(codec, default) }
    }

    /// Register a decoder for a media type; where `default` is set it
    /// becomes the decoder used absent a `Content-Type` header.
    pub fn with_media_type_deserial<M: MediaType>(self, codec: D, default: bool) -> (r: Self)
        ensures
            r.inner() == self.inner(),
            r.ser_entries() == self.ser_entries(),
            r.ser_default_idx() == self.ser_default_idx(),
            r.deser_entries().len() == self.deser_entries().len() + 1,
            r.deser_entries().last().0@ == M::spec_mime_type(),
            r.deser_entries().last().1@ == M::spec_mime_subtype(),
            r.deser_entries().last().2 == codec,
            forall|k: int| 0 <= k < self.deser_entries().len() ==> #[trigger] r.deser_entries()[k]
                == self.deser_entries()[k],
            r.deser_default_idx() == if default {
                Some(self.deser_entries().len() as usize)
            } else {
                self.deser_default_idx()
            },
    {
        let MediaTypeSerializer { handler, serializers, default_serializer, phantom } = self.core;
        let handler = handler.with_media_type::<M>(codec, default);
        Self { core: MediaTypeSerializer { handler, serializers, default_serializer, phantom } }
    }

    /// Register an encoder and a decoder for one media type; where
    /// `default` is set they become the entries used absent the relevant
    /// header.
    pub fn with_media_type<M: MediaType>(self, ser: S, deser: D, default: bool) -> (r: Self)
        ensures
            r.inner() == self.inner(),
            r.ser_entries().len() == self.ser_entries().len() + 1,
            r.ser_entries().last().0@ == M::spec_mime_type(),
            r.ser_entries().last().1@ == M::spec_mime_subtype(),
            r.ser_entries().last().2 == ser,
            forall|k: int| 0 <= k < self.ser_entries().len() ==> #[trigger] r.ser_entries()[k]
                == self.ser_entries()[k],
            r.ser_default_idx() == if default {
                Some(self.ser_entries().len() as usize)
            } else {
                self.ser_default_idx()
            },
            r.deser_entries().len() == self.deser_entries().len() + 1,
            r.deser_entries().last().0@ == M::spec_mime_type(),
            r.deser_entries().last().1@ == M::spec_mime_subtype(),
            r.deser_entries().last().2 == deser,
            forall|k: int| 0 <= k < self.deser_entries().len() ==> #[trigger] r.deser_entries()[k]
                == self.deser_entries()[k],
            r.deser_default_idx() == if default {
                Some(self.deser_entries().len() as usize)
            } else {
                self.deser_default_idx()
            },
    {
        self.with_media_type_serial::<M>(ser, default).with_media_type_deserial::<M>(
            deser,
            default,
        )
    }
}

impl<
    I,
    O,
    E,
    C,
    H: Handler<I, O, E, C>,
    S: Serialize<O>,
    D: Deserialize<I>,
> Handler<Vec<u8>, Vec<u8>, E, C> for MediaTypeSerde<I, O, H, S, D> {
    open spec fn ens(&self, request: Request<Vec<u8>>, c0: C, r: Res<Vec<u8>, E>, c1: C) -> bool {
        self.composed().ens(request, c0, r, c1)
    }

    /// Check `Accept` first (406 where no encoder fits, before anything
    /// else runs), decode the payload, run the wrapped handler, and encode
    /// a success outcome.
    fn handle(&self, request: Request<Vec<u8>>, context: C) -> (r: Handled<Vec<u8>, E, C>)
        ensures
            self.ens(request, context, r.0, r.1),
    {
        proof {
            assert(self.composed() == self.core);
        }
        self.core.handle(request, context)
    }
}

/// The identity codec over raw bytes: encoding returns the payload bytes
/// unchanged, decoding returns the input bytes unchanged.
pub struct BytesCodec;

impl Serialize<Vec<u8>> for BytesCodec {
    open spec fn serialize_rel(&self, payload: Vec<u8>, r: Result<Vec<u8>, SerializationError>)
        -> bool {
        r is Ok && r->Ok_0@ == payload@
    }

    /// Hand the payload bytes through.
    fn serialize(&self, payload: Vec<u8>) -> (r: Result<Vec<u8>, SerializationError>)
        ensures
            self.serialize_rel(payload, r),
    {
        Ok(payload)
    }
}

impl Deserialize<Vec<u8>> for BytesCodec {
    open spec fn deserialize_rel(&self, bytes: Vec<u8>, r: Result<Vec<u8>, SerializationError>)
        -> bool {
        r is Ok && r->Ok_0@ == bytes@
    }

    /// Hand the input bytes through.
    fn deserialize(&self, bytes: Vec<u8>) -> (r: Result<Vec<u8>, SerializationError>)
        ensures
            self.deserialize_rel(bytes, r),
    {
        Ok(bytes)
    }
}

} // verus!
