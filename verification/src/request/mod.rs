//! HTTP request, named parameters, and header lookup.
use vstd::prelude::*;

pub mod header;
pub mod parser;

verus! {

use crate::text::{lower_chars, pairs_view, ascii_lowercase, lemma_lower_chars_idem};
use crate::request::header::{
    Accept, ContentType, HeaderParseError, prefs_view, spec_accept, spec_content_type,
};

/// The HTTP method of a request, one of the nine standard verbs.
#[derive(Debug, Clone, PartialEq, Eq)]
pub enum Method {
    GET,
    HEAD,
    POST,
    PUT,
    PATCH,
    DELETE,
    CONNECT,
    OPTIONS,
    TRACE,
}

/// Where a named parameter came from.
pub enum ParamKind {
    Path,
    Query,
    Body,
}

/// The mathematical identity of a parameter: its origin and its name.
pub struct ParamKey {
    pub kind: ParamKind,
    pub name: Seq<char>,
}

/// A named parameter captured from the path, the query string, or a
/// form-encoded body.
#[derive(Debug, Clone, PartialEq, Eq, Hash)]
pub enum Param {
    Path(String),
    Query(String),
    Body(String),
}

impl View for Param {
    type V = ParamKey;

    open spec fn view(&self) -> ParamKey {
        match self {
            Param::Path(s) => ParamKey { kind: ParamKind::Path, name: s@ },
            Param::Query(s) => ParamKey { kind: ParamKind::Query, name: s@ },
            Param::Body(s) => ParamKey { kind: ParamKind::Body, name: s@ },
        }
    }
}

impl Param {
    /// The parameter's name, without its origin.
    pub fn name(&self) -> (r: &String)
        ensures
            r@ == self@.name,
    {
        match self {
            Param::Path(s) => s,
            Param::Query(s) => s,
            Param::Body(s) => s,
        }
    }

    /// Whether two parameters have the same origin and name.
    pub fn same_as(&self, other: &Param) -> (r: bool)
        ensures
            r == (self@ == other@),
    {
        match (self, other) {
            (Param::Path(a), Param::Path(b)) => *a == *b,
            (Param::Query(a), Param::Query(b)) => *a == *b,
            (Param::Body(a), Param::Body(b)) => *a == *b,
            _ => false,
        }
    }
}

/// The values recorded for one key, in the order they were added.
pub open spec fn values_of(s: Seq<(ParamKey, Seq<char>)>, k: ParamKey) -> Seq<Seq<char>>
    decreases s.len(),
{
    if s.len() == 0 {
        Seq::<Seq<char>>::empty()
    } else {
        let rest = values_of(s.drop_first(), k);
        if s[0].0 == k {
            seq![s[0].1] + rest
        } else {
            rest
        }
    }
}

/// What a name-only lookup yields: the first value recorded under the name as
/// a path parameter, else as a query parameter, else as a body parameter.
pub open spec fn any_value_of(s: Seq<(ParamKey, Seq<char>)>, name: Seq<char>) -> Option<Seq<char>> {
    let path_vs = values_of(s, ParamKey { kind: ParamKind::Path, name });
    let query_vs = values_of(s, ParamKey { kind: ParamKind::Query, name });
    let body_vs = values_of(s, ParamKey { kind: ParamKind::Body, name });
    if path_vs.len() > 0 {
        Some(path_vs[0])
    } else if query_vs.len() > 0 {
        Some(query_vs[0])
    } else if body_vs.len() > 0 {
        Some(body_vs[0])
    } else {
        None
    }
}

/// Named values accumulated from the path, the query string, and the body,
/// looked up by (origin, name) or by name alone with path > query > body
/// precedence.
#[derive(Debug, Clone, PartialEq)]
pub struct Params {
    items: Vec<(Param, String)>,
}

impl View for Params {
    type V = Seq<(ParamKey, Seq<char>)>;

    closed spec fn view(&self) -> Seq<(ParamKey, Seq<char>)> {
        self.items@.map_values(|p: (Param, String)| (p.0@, p.1@))
    }
}

impl Params {
    /// An empty parameter set.
    pub fn new() -> (r: Params)
        ensures
            r@ == Seq::<(ParamKey, Seq<char>)>::empty(),
    {
        let r = Params { items: Vec::new() };
        proof {
            assert(r@ =~= Seq::<(ParamKey, Seq<char>)>::empty());
        }
        r
    }

    /// Record one value under a parameter key, after all values already held.
    pub fn add(&mut self, p: Param, s: String)
        ensures
            final(self)@ == old(self)@.push((p@, s@)),
    {
        let ghost pre = self@;
        self.items.push((p, s));
        proof {
            assert(self@ =~= pre.push((p@, s@)));
        }
    }

    /// All values recorded under a key, in order; nothing if there are none.
    pub fn get_all(&self, p: &Param) -> (r: Option<Vec<String>>)
        ensures
            match r {
                Some(v) => v.deep_view() == values_of(self@, p@) && v.len() > 0,
                None => values_of(self@, p@).len() == 0,
            },
    {
        let mut out: Vec<String> = Vec::new();
        let mut i: usize = 0;
        proof {
            assert(self@.skip(0) =~= self@);
            assert(out.deep_view() + values_of(self@.skip(0), p@) =~= values_of(self@, p@));
        }
        while i < self.items.len()
            invariant
                0 <= i <= self.items.len(),
                self@.len() == self.items@.len(),
                forall|k: int| 0 <= k < self@.len() ==> #[trigger] self@[k] == (
                    self.items@[k].0@,
                    self.items@[k].1@,
                ),
                values_of(self@, p@) == out.deep_view() + values_of(self@.skip(i as int), p@),
            decreases self.items.len() - i,
        {
            let ghost pre = out.deep_view();
            if self.items[i].0.same_as(p) {
                let v = self.items[i].1.clone();
                out.push(v);
                proof {
                    assert(out.deep_view() =~= pre.push(self.items@[i as int].1@));
                }
            }
            proof {
                assert(self@.skip(i as int).drop_first() =~= self@.skip(i as int + 1));
                assert(self@.skip(i as int)[0] == self@[i as int]);
                assert(values_of(self@, p@) =~= out.deep_view() + values_of(
                    self@.skip(i as int + 1),
                    p@,
                ));
            }
            i = i + 1;
        }
        proof {
            assert(self@.skip(self.items@.len() as int).len() == 0);
            assert(values_of(self@.skip(self.items@.len() as int), p@) =~= Seq::<
                Seq<char>,
            >::empty());
            assert(out.deep_view() =~= values_of(self@, p@));
        }
        if out.len() == 0 {
            None
        } else {
            Some(out)
        }
    }

    /// The first value recorded under a key, if any.
    pub fn get_first(&self, p: &Param) -> (r: Option<String>)
        ensures
            match r {
                Some(v) => values_of(self@, p@).len() > 0 && v@ == values_of(self@, p@)[0],
                None => values_of(self@, p@).len() == 0,
            },
    {
        match self.get_all(p) {
            None => None,
            Some(vs) => {
                proof {
                    assert(vs.deep_view()[0] == vs@[0]@);
                }
                Some(vs[0].clone())
            },
        }
    }

    /// Look a name up in every origin, with path > query > body precedence,
    /// and return the first value of the first origin that has one.
    pub fn get_any(&self, name: &str) -> (r: Option<String>)
        ensures
            match r {
                Some(v) => any_value_of(self@, name@) == Some(v@),
                None => any_value_of(self@, name@) is None,
            },
    {
        let tries = [
            Param::Path(name.to_owned()),
            Param::Query(name.to_owned()),
            Param::Body(name.to_owned()),
        ];
        if let Some(v) = self.get_first(&tries[0]) {
            return Some(v);
        }
        if let Some(v) = self.get_first(&tries[1]) {
            return Some(v);
        }
        if let Some(v) = self.get_first(&tries[2]) {
            return Some(v);
        }
        None
    }
}

impl Default for Params {
    /// An empty parameter set.
    fn default() -> (r: Params)
        ensures
            r@ == Seq::<(ParamKey, Seq<char>)>::empty(),
    {
        Params::new()
    }
}

/// The first value held under a header name, compared without regard to
/// ASCII case.
pub open spec fn header_find(hs: Seq<(Seq<char>, Seq<char>)>, name: Seq<char>) -> Option<Seq<char>>
    decreases hs.len(),
{
    if hs.len() == 0 {
        None
    } else if lower_chars(hs[0].0) == lower_chars(name) {
        Some(hs[0].1)
    } else {
        header_find(hs.drop_first(), name)
    }
}

/// An HTTP request: the verb, the split request target, the header list with
/// names held lower-cased, an optional typed payload, the declared content
/// length, and the captured parameters.
#[derive(Debug, Clone, PartialEq)]
pub struct Request<T> {
    pub method: Method,
    pub path: String,
    pub query: String,
    pub fragment: String,
    pub headers: Vec<(String, String)>,
    pub payload: Option<T>,
    pub content_length: usize,
    pub params: Params,
}

/// A request whose payload is raw bytes, fresh from the wire.
pub type RawRequest = Request<Vec<u8>>;

impl<T> Request<T> {
    /// Add a header, or replace the value of one already held under the same
    /// name (ASCII case does not count); the name is stored lower-cased.
    pub fn with_header(self, name: &str, value: &str) -> (r: Self)
        ensures
            r.method == self.method,
            r.path == self.path,
            r.query == self.query,
            r.fragment == self.fragment,
            r.payload == self.payload,
            r.content_length == self.content_length,
            r.params == self.params,
            header_find(pairs_view(r.headers@), name@) == Some(value@),
            forall|n: Seq<char>|
                lower_chars(n) != lower_chars(name@) ==> #[trigger] header_find(
                    pairs_view(r.headers@),
                    n,
                ) == header_find(pairs_view(self.headers@), n),
    {
        let mut headers = self.headers;
        set_header(&mut headers, name, value);
        Self { headers, ..self }
    }

    /// Discard the payload, keeping everything else, so that a decoded
    /// payload of another type can be attached.
    pub fn into_type<S>(self) -> (r: Request<S>)
        ensures
            r.method == self.method,
            r.path == self.path,
            r.query == self.query,
            r.fragment == self.fragment,
            r.headers == self.headers,
            r.payload is None,
            r.content_length == self.content_length,
            r.params == self.params,
    {
        Request {
            method: self.method,
            path: self.path,
            query: self.query,
            fragment: self.fragment,
            headers: self.headers,
            payload: None,
            content_length: self.content_length,
            params: self.params,
        }
    }

    /// The parsed `Accept` header, where the request has one. Reading an
    /// `Accept` header never fails: entries that do not parse are dropped.
    pub fn accept(&self) -> (r: Result<Option<Accept>, HeaderParseError>)
        ensures
            r is Ok,
            match r->Ok_0 {
                Some(a) => header_find(pairs_view(self.headers@), "accept"@) is Some
                    && prefs_view(a.prefs@) == spec_accept(
                    header_find(pairs_view(self.headers@), "accept"@)->Some_0,
                ),
                None => header_find(pairs_view(self.headers@), "accept"@) is None,
            },
    {
        proof {
            reveal_strlit("accept");
        }
        match self.get_header("accept") {
            Some(v) => Ok(Some(Accept::from_str(v.as_str()))),
            None => Ok(None),
        }
    }

    /// The parsed `Content-Type` header, where the request has one and it
    /// parses; a header that does not parse is an error.
    pub fn content_type(&self) -> (r: Result<Option<ContentType>, HeaderParseError>)
        ensures
            match r {
                Ok(Some(ct)) => header_find(pairs_view(self.headers@), "content-type"@) is Some
                    && spec_content_type(
                    header_find(pairs_view(self.headers@), "content-type"@)->Some_0,
                ) == Some(ct@),
                Ok(None) => header_find(pairs_view(self.headers@), "content-type"@) is None,
                Err(e) => header_find(pairs_view(self.headers@), "content-type"@) is Some
                    && spec_content_type(
                    header_find(pairs_view(self.headers@), "content-type"@)->Some_0,
                ) is None,
            },
    {
        proof {
            reveal_strlit("content-type");
        }
        match self.get_header("content-type") {
            Some(v) => match ContentType::from_str(v.as_str()) {
                Ok(ct) => Ok(Some(ct)),
                Err(e) => Err(e),
            },
            None => Ok(None),
        }
    }

    /// The value of one header, by name, without regard to ASCII case.
    pub fn get_header(&self, name: &str) -> (r: Option<&String>)
        ensures
            match r {
                Some(v) => header_find(pairs_view(self.headers@), name@) == Some(v@),
                None => header_find(pairs_view(self.headers@), name@) is None,
            },
    {
        find_header(&self.headers, name)
    }
}

impl Default for Request<Vec<u8>> {
    /// A GET request for `/`, addressed to `localhost`, without payload.
    fn default() -> (r: Request<Vec<u8>>)
        ensures
            r.method == Method::GET,
            r.path@ == "/"@,
            r.query@ == ""@,
            r.fragment@ == ""@,
            pairs_view(r.headers@) == seq![("host"@, "localhost"@)],
            r.payload is None,
            r.content_length == 0,
            r.params@ == Seq::<(ParamKey, Seq<char>)>::empty(),
    {
        let mut headers: Vec<(String, String)> = Vec::new();
        headers.push(("host".to_owned(), "localhost".to_owned()));
        let r = Request {
            method: Method::GET,
            path: "/".to_owned(),
            query: "".to_owned(),
            fragment: "".to_owned(),
            headers,
            payload: None,
            content_length: 0,
            params: Params::new(),
        };
        proof {
            assert(pairs_view(r.headers@) =~= seq![("host"@, "localhost"@)]);
        }
        r
    }
}

/// Scan a header list for a name, without regard to ASCII case, and return
/// the first value found.
pub fn find_header<'a>(headers: &'a Vec<(String, String)>, name: &str) -> (r: Option<&'a String>)
    ensures
        match r {
            Some(v) => header_find(pairs_view(headers@), name@) == Some(v@),
            None => header_find(pairs_view(headers@), name@) is None,
        },
{
    let lname = ascii_lowercase(name);
    let ghost hs = pairs_view(headers@);
    let mut i: usize = 0;
    proof {
        assert(hs.skip(0) =~= hs);
    }
    while i < headers.len()
        invariant
            0 <= i <= headers.len(),
            hs == pairs_view(headers@),
            hs.len() == headers@.len(),
            forall|k: int| 0 <= k < hs.len() ==> #[trigger] hs[k] == (
                headers@[k].0@,
                headers@[k].1@,
            ),
            lname@ == lower_chars(name@),
            header_find(hs, name@) == header_find(hs.skip(i as int), name@),
        decreases headers.len() - i,
    {
        let cand = ascii_lowercase(headers[i].0.as_str());
        proof {
            assert(hs.skip(i as int)[0] == hs[i as int]);
            assert(hs.skip(i as int).drop_first() =~= hs.skip(i as int + 1));
        }
        if cand == lname {
            return Some(&headers[i].1);
        }
        i = i + 1;
    }
    proof {
        assert(hs.skip(headers@.len() as int).len() == 0);
    }
    None
}

/// Set a header in a list: replace the value of the first entry whose name
/// matches without regard to ASCII case, else append; the name is stored
/// lower-cased.
pub fn set_header(headers: &mut Vec<(String, String)>, name: &str, value: &str)
    ensures
        header_find(pairs_view(final(headers)@), name@) == Some(value@),
        forall|n: Seq<char>|
            lower_chars(n) != lower_chars(name@) ==> #[trigger] header_find(
                pairs_view(final(headers)@),
                n,
            ) == header_find(pairs_view(old(headers)@), n),
{
    let lname = ascii_lowercase(name);
    let ghost hs0 = pairs_view(old(headers)@);
    let mut i: usize = 0;
    while i < headers.len()
        invariant
            0 <= i <= headers.len(),
            headers@ == old(headers)@,
            hs0 == pairs_view(headers@),
            hs0.len() == headers@.len(),
            forall|k: int| 0 <= k < hs0.len() ==> #[trigger] hs0[k] == (
                headers@[k].0@,
                headers@[k].1@,
            ),
            lname@ == lower_chars(name@),
            forall|k: int| 0 <= k < i ==> lower_chars(#[trigger] hs0[k].0) != lower_chars(name@),
        decreases headers.len() - i,
    {
        let cand = ascii_lowercase(headers[i].0.as_str());
        if cand == lname {
            let ghost pre = headers@;
            headers[i].1 = value.to_owned();
            proof {
                let hs1 = pairs_view(headers@);
                assert(hs1.len() == hs0.len());
                assert(forall|k: int|
                    0 <= k < hs0.len() && k != i ==> #[trigger] hs1[k] == hs0[k]);
                assert(hs1[i as int].0 == hs0[i as int].0);
                assert(hs1[i as int].1 == value@);
                lemma_header_find_set(hs0, hs1, i as int, value@);
                lemma_header_find_same_lower(hs1, hs0[i as int].0, name@);
            }
            return;
        }
        i = i + 1;
    }
    let ghost pre = headers@;
    headers.push((lname, value.to_owned()));
    proof {
        let hs1 = pairs_view(headers@);
        assert(hs1.len() == hs0.len() + 1);
        assert(forall|k: int| 0 <= k < hs0.len() ==> #[trigger] hs1[k] == hs0[k]);
        assert(hs1[hs0.len() as int].0 == lower_chars(name@));
        assert(hs1[hs0.len() as int].1 == value@);
        lemma_lower_chars_idem(name@);
        lemma_header_find_extend(hs0, hs1, name@, value@);
    }
}

/// A header lookup goes by the lower-cased name alone: names that agree
/// after lower-casing find the same entry.
proof fn lemma_header_find_same_lower(
    hs: Seq<(Seq<char>, Seq<char>)>,
    n1: Seq<char>,
    n2: Seq<char>,
)
    requires
        lower_chars(n1) == lower_chars(n2),
    ensures
        header_find(hs, n1) == header_find(hs, n2),
    decreases hs.len(),
{
    if hs.len() > 0 {
        lemma_header_find_same_lower(hs.drop_first(), n1, n2);
    }
}

/// After replacing the value at the first case-insensitive match of a name,
/// a lookup of that name yields the new value and every other name is
/// untouched.
proof fn lemma_header_find_set(
    hs0: Seq<(Seq<char>, Seq<char>)>,
    hs1: Seq<(Seq<char>, Seq<char>)>,
    i: int,
    value: Seq<char>,
)
    requires
        0 <= i < hs0.len(),
        hs1.len() == hs0.len(),
        forall|k: int| 0 <= k < hs0.len() && k != i ==> #[trigger] hs1[k] == hs0[k],
        hs1[i].0 == hs0[i].0,
        hs1[i].1 == value,
        forall|k: int| 0 <= k < i ==> lower_chars(#[trigger] hs0[k].0) != lower_chars(hs0[i].0),
    ensures
        header_find(hs1, hs0[i].0) == Some(value),
        forall|n: Seq<char>|
            lower_chars(n) != lower_chars(hs0[i].0) ==> #[trigger] header_find(hs1, n)
                == header_find(hs0, n),
    decreases i,
{
    if i == 0 {
        assert forall|n: Seq<char>| lower_chars(n) != lower_chars(hs0[0].0) implies #[trigger]
        header_find(hs1, n) == header_find(hs0, n) by {
            assert(hs1.drop_first() =~= hs0.drop_first());
        }
    } else {
        assert(hs0.drop_first()[i - 1] == hs0[i]);
        assert(forall|k: int|
            0 <= k < hs0.drop_first().len() && k != i - 1 ==> #[trigger] hs1.drop_first()[k]
                == hs0.drop_first()[k]);
        assert(forall|k: int|
            0 <= k < i - 1 ==> lower_chars(#[trigger] hs0.drop_first()[k].0) != lower_chars(
                hs0.drop_first()[i - 1].0,
            ));
        lemma_header_find_set(hs0.drop_first(), hs1.drop_first(), i - 1, value);
        assert(hs1[0] == hs0[0]);
        assert(lower_chars(hs0[0].0) != lower_chars(hs0[i].0));
        assert(header_find(hs1, hs0[i].0) == Some(value));
        assert forall|n: Seq<char>| lower_chars(n) != lower_chars(hs0[i].0) implies #[trigger]
        header_find(hs1, n) == header_find(hs0, n) by {
            if lower_chars(hs1[0].0) != lower_chars(n) {
                assert(header_find(hs1, n) == header_find(hs1.drop_first(), n));
                assert(header_find(hs0, n) == header_find(hs0.drop_first(), n));
            }
        }
    }
}

/// After appending a fresh name at the end of a list in which it does not
/// occur, a lookup of that name yields the new value and every other name is
/// untouched.
proof fn lemma_header_find_extend(
    hs0: Seq<(Seq<char>, Seq<char>)>,
    hs1: Seq<(Seq<char>, Seq<char>)>,
    name: Seq<char>,
    value: Seq<char>,
)
    requires
        hs1.len() == hs0.len() + 1,
        forall|k: int| 0 <= k < hs0.len() ==> #[trigger] hs1[k] == hs0[k],
        lower_chars(hs1[hs0.len() as int].0) == lower_chars(name),
        hs1[hs0.len() as int].1 == value,
        forall|k: int| 0 <= k < hs0.len() ==> lower_chars(#[trigger] hs0[k].0) != lower_chars(
            name,
        ),
    ensures
        header_find(hs1, name) == Some(value),
        forall|n: Seq<char>|
            lower_chars(n) != lower_chars(name) ==> #[trigger] header_find(hs1, n) == header_find(
                hs0,
                n,
            ),
    decreases hs0.len(),
{
    if hs0.len() == 0 {
        assert(header_find(hs1, name) == Some(value));
        assert forall|n: Seq<char>| lower_chars(n) != lower_chars(name) implies #[trigger]
        header_find(hs1, n) == header_find(hs0, n) by {
            assert(hs1.drop_first() =~= Seq::<(Seq<char>, Seq<char>)>::empty());
            assert(header_find(hs1, n) == header_find(hs1.drop_first(), n));
        }
    } else {
        assert(hs1[0] == hs0[0]);
        assert(forall|k: int|
            0 <= k < hs0.drop_first().len() ==> #[trigger] hs1.drop_first()[k]
                == hs0.drop_first()[k]);
        assert(hs1.drop_first()[hs0.drop_first().len() as int] == hs1[hs0.len() as int]);
        lemma_header_find_extend(hs0.drop_first(), hs1.drop_first(), name, value);
        assert(lower_chars(hs0[0].0) != lower_chars(name));
        assert(header_find(hs1, name) == header_find(hs1.drop_first(), name));
        assert forall|n: Seq<char>| lower_chars(n) != lower_chars(name) implies #[trigger]
        header_find(hs1, n) == header_find(hs0, n) by {
            if lower_chars(hs1[0].0) != lower_chars(n) {
                assert(header_find(hs1, n) == header_find(hs1.drop_first(), n));
                assert(header_find(hs0, n) == header_find(hs0.drop_first(), n));
            }
        }
    }
}

} // verus!
