//! Path-based request routing with parameter capture.
use vstd::prelude::*;

verus! {

use crate::handler::{Handled, Handler, Res};
use crate::request::{Param, ParamKey, ParamKind, Request};
use crate::response::{status, Response};
use crate::text::{chars_vec, pairs_view, spec_split, split_chars, string_from_chars};

/// The shape of one route segment: a literal, a named capture, or a
/// wildcard.
pub enum PartV {
    Exact(Seq<char>),
    Param(Seq<char>),
    Any,
}

/// One segment matcher of a route pattern: `Exact` requires the literal
/// segment, `Param` accepts any segment and captures it under its name, and
/// `Any` accepts any segment without capturing.
#[derive(Debug, Clone, PartialEq)]
pub enum RoutePart {
    Exact(String),
    Param(String),
    Any,
}

impl View for RoutePart {
    type V = PartV;

    open spec fn view(&self) -> PartV {
        match self {
            RoutePart::Exact(s) => PartV::Exact(s@),
            RoutePart::Param(s) => PartV::Param(s@),
            RoutePart::Any => PartV::Any,
        }
    }
}

/// What one pattern piece means: `*` is a wildcard, a leading `?` names a
/// capture, anything else is a literal.
pub open spec fn spec_part(s: Seq<char>) -> PartV {
    if s == seq!['*'] {
        PartV::Any
    } else if s.len() > 0 && s[0] == '?' {
        PartV::Param(s.skip(1))
    } else {
        PartV::Exact(s)
    }
}

impl RoutePart {
    /// Read one pattern piece.
    pub fn from_chars(cs: &Vec<char>) -> (r: RoutePart)
        ensures
            r@ == spec_part(cs@),
    {
        if cs.len() == 1 && cs[0] == '*' {
            proof {
                assert(cs@ =~= seq!['*']);
            }
            RoutePart::Any
        } else if cs.len() > 0 && cs[0] == '?' {
            let mut name: Vec<char> = Vec::new();
            let mut i: usize = 1;
            while i < cs.len()
                invariant
                    1 <= i <= cs@.len(),
                    name@ == cs@.subrange(1, i as int),
                decreases cs@.len() - i,
            {
                name.push(cs[i]);
                i = i + 1;
                proof {
                    assert(name@ =~= cs@.subrange(1, i as int));
                }
            }
            proof {
                assert(cs@.subrange(1, cs@.len() as int) =~= cs@.skip(1));
            }
            RoutePart::Param(string_from_chars(name.as_slice()))
        } else {
            RoutePart::Exact(string_from_chars(cs.as_slice()))
        }
    }

    /// Read one pattern piece from a string.
    pub fn from_str(s: &str) -> (r: RoutePart)
        ensures
            r@ == spec_part(s@),
    {
        Self::from_chars(&chars_vec(s))
    }

    /// Whether this matcher accepts a path segment.
    pub fn matches(&self, seg: &Vec<char>) -> (r: bool)
        ensures
            r == part_matches(self@, seg@),
    {
        match self {
            RoutePart::Exact(e) => crate::text::chars_eq(&chars_vec(e.as_str()), seg),
            RoutePart::Param(_) => true,
            RoutePart::Any => true,
        }
    }
}

/// Whether a segment matcher accepts a segment.
pub open spec fn part_matches(p: PartV, seg: Seq<char>) -> bool {
    match p {
        PartV::Exact(e) => e == seg,
        PartV::Param(n) => true,
        PartV::Any => true,
    }
}

/// The (name, segment) pairs captured by the `Param` matchers of a pattern,
/// in order.
pub open spec fn spec_captures(parts: Seq<PartV>, segs: Seq<Seq<char>>) -> Seq<
    (Seq<char>, Seq<char>),
>
    decreases parts.len(),
{
    if parts.len() == 0 || segs.len() == 0 {
        Seq::<(Seq<char>, Seq<char>)>::empty()
    } else {
        let head = match parts[0] {
            PartV::Param(n) => seq![(n, segs[0])],
            _ => Seq::<(Seq<char>, Seq<char>)>::empty(),
        };
        head + spec_captures(parts.drop_first(), segs.drop_first())
    }
}

/// The meaning of a route pattern: its segment matchers and whether it
/// matches any longer path as a prefix.
pub struct RouteV {
    pub parts: Seq<PartV>,
    pub is_prefix: bool,
}

/// Route parts as their meanings.
pub open spec fn route_parts_view(v: Seq<RoutePart>) -> Seq<PartV> {
    v.map_values(|p: RoutePart| p@)
}

/// The matchers of a sequence of pattern pieces.
pub open spec fn parts_of_pieces(pieces: Seq<Seq<char>>) -> Seq<PartV> {
    pieces.map_values(|p: Seq<char>| spec_part(p))
}

/// The meaning of a whole pattern string: split on `/`; a terminal `**`
/// piece makes the route a prefix pattern and is no matcher itself.
pub open spec fn spec_route_path(s: Seq<char>) -> RouteV {
    let pieces = spec_split(s, '/');
    if pieces.len() > 0 && pieces.last() == seq!['*', '*'] {
        RouteV { parts: parts_of_pieces(pieces.drop_last()), is_prefix: true }
    } else {
        RouteV { parts: parts_of_pieces(pieces), is_prefix: false }
    }
}

/// A route pattern: ordered segment matchers, plus whether a terminal `**`
/// lets it match any longer path.
#[derive(Debug, Clone, PartialEq)]
pub struct RoutePath {
    pub parts: Vec<RoutePart>,
    pub is_prefix: bool,
}

impl View for RoutePath {
    type V = RouteV;

    open spec fn view(&self) -> RouteV {
        RouteV { parts: route_parts_view(self.parts@), is_prefix: self.is_prefix }
    }
}

/// Whether a route accepts a split path: every matcher accepts its segment,
/// and the segment count is the matcher count, or passes it for a prefix
/// pattern.
pub open spec fn route_matches(rv: RouteV, segs: Seq<Seq<char>>) -> bool {
    &&& segs.len() >= rv.parts.len()
    &&& (rv.is_prefix || segs.len() == rv.parts.len())
    &&& forall|i: int| 0 <= i < rv.parts.len() ==> part_matches(#[trigger] rv.parts[i], segs[i])
}

impl RoutePath {
    /// Read a pattern string.
    #[verifier::loop_isolation(false)]
    pub fn from_str(s: &str) -> (r: RoutePath)
        ensures
            r@ == spec_route_path(s@),
    {
        let cs = chars_vec(s);
        let mut pieces = split_chars(&cs, '/');
        let ghost all_pieces = pieces.deep_view();
        proof {
            assert(all_pieces.len() == pieces@.len());
            assert(forall|k: int| 0 <= k < pieces@.len() ==> #[trigger] all_pieces[k]
                =~= pieces@[k]@);
            assert(all_pieces.len() > 0);
        }
        let mut is_prefix = false;
        let last = &pieces[pieces.len() - 1];
        if last.len() == 2 && last[0] == '*' && last[1] == '*' {
            proof {
                assert(all_pieces.last() =~= seq!['*', '*']);
            }
            is_prefix = true;
            pieces.pop();
            proof {
                assert(pieces.deep_view() =~~= all_pieces.drop_last());
            }
        } else {
            proof {
                if all_pieces.last() == seq!['*', '*'] {
                    assert(last@ =~= all_pieces.last());
                    assert(last@.len() == 2);
                    assert(last@[0] == '*' && last@[1] == '*');
                }
            }
        }
        let ghost kept = pieces.deep_view();
        let mut parts: Vec<RoutePart> = Vec::new();
        let mut i: usize = 0;
        proof {
            assert(kept.len() == pieces@.len());
            assert(forall|k: int| 0 <= k < pieces@.len() ==> #[trigger] kept[k] =~= pieces@[k]@);
            assert(route_parts_view(parts@) =~~= parts_of_pieces(kept.take(0)));
        }
        while i < pieces.len()
            invariant
                0 <= i <= pieces@.len(),
                kept == pieces.deep_view(),
                kept.len() == pieces@.len(),
                forall|k: int| 0 <= k < pieces@.len() ==> #[trigger] pieces@[k]@ == kept[k],
                route_parts_view(parts@) == parts_of_pieces(kept.take(i as int)),
            decreases pieces@.len() - i,
        {
            let ghost pre_parts = parts@;
            let part = RoutePart::from_chars(&pieces[i]);
            parts.push(part);
            i = i + 1;
            proof {
                assert(parts@[i - 1]@ == spec_part(pieces@[i - 1]@));
                assert forall|k: int| 0 <= k < i implies route_parts_view(parts@)[k]
                    == parts_of_pieces(kept.take(i as int))[k] by {
                    assert(kept[k] == pieces@[k]@);
                    assert(route_parts_view(parts@)[k] == parts@[k]@);
                    assert(parts_of_pieces(kept.take(i as int))[k] == spec_part(kept.take(
                        i as int,
                    )[k]));
                    assert(kept.take(i as int)[k] == kept[k]);
                    if k < i - 1 {
                        assert(parts@[k] == pre_parts[k]);
                        assert(route_parts_view(pre_parts)[k] == pre_parts[k]@);
                        assert(route_parts_view(pre_parts)[k] == parts_of_pieces(
                            kept.take(i as int - 1),
                        )[k]);
                        assert(parts_of_pieces(kept.take(i as int - 1))[k] == spec_part(
                            kept.take(i as int - 1)[k],
                        ));
                        assert(kept.take(i as int - 1)[k] == kept[k]);
                    }
                }
                assert(route_parts_view(parts@) =~= parts_of_pieces(kept.take(i as int)));
            }
        }
        proof {
            assert(kept.take(kept.len() as int) =~= kept);
        }
        let r = RoutePath { parts, is_prefix };
        proof {
            assert(spec_split(cs@, '/').len() > 0);
        }
        r
    }

    /// Whether this route accepts a path, and the segments its `Param`
    /// matchers captured, in order. The captures only count where the route
    /// accepted.
    #[verifier::loop_isolation(false)]
    pub fn matches(&self, path: &str) -> (r: (bool, Vec<(String, String)>))
        ensures
            r.0 == route_matches(self@, spec_split(path@, '/')),
            r.0 ==> pairs_view(r.1@) == spec_captures(self@.parts, spec_split(path@, '/')),
    {
        let cs = chars_vec(path);
        let segs = split_chars(&cs, '/');
        let ghost sv = segs.deep_view();
        proof {
            assert(sv == spec_split(path@, '/'));
            assert(sv.len() == segs@.len());
            assert(forall|k: int| 0 <= k < segs@.len() ==> #[trigger] sv[k] =~= segs@[k]@);
            assert(self@.parts.len() == self.parts@.len());
        }
        let mut caps: Vec<(String, String)> = Vec::new();
        if segs.len() < self.parts.len() {
            return (false, caps);
        }
        if segs.len() > self.parts.len() && !self.is_prefix {
            return (false, caps);
        }
        let mut i: usize = 0;
        proof {
            assert(pairs_view(caps@) =~~= spec_captures(self@.parts.take(0), sv.take(0)));
        }
        while i < self.parts.len()
            invariant
                0 <= i <= self.parts@.len(),
                self.parts@.len() <= segs@.len(),
                sv == segs.deep_view(),
                sv.len() == segs@.len(),
                forall|k: int| 0 <= k < segs@.len() ==> #[trigger] segs@[k]@ == sv[k],
                forall|k: int| 0 <= k < i ==> part_matches(#[trigger] self@.parts[k], sv[k]),
                pairs_view(caps@) == spec_captures(self@.parts.take(i as int), sv.take(i as int)),
            decreases self.parts@.len() - i,
        {
            let part = &self.parts[i];
            proof {
                assert(part@ == self@.parts[i as int]);
                assert(segs@[i as int]@ == sv[i as int]);
            }
            if !part.matches(&segs[i]) {
                proof {
                    assert(!part_matches(self@.parts[i as int], sv[i as int]));
                    assert(!route_matches(self@, sv));
                }
                return (false, caps);
            }
            let ghost pre = caps@;
            if let RoutePart::Param(name) = part {
                let v = string_from_chars(segs[i].as_slice());
                caps.push((name.clone(), v));
            }
            i = i + 1;
            proof {
                lemma_captures_take_step(self@.parts, sv, i as int);
                assert(pairs_view(caps@) =~~= spec_captures(
                    self@.parts.take(i as int),
                    sv.take(i as int),
                ));
            }
        }
        proof {
            assert(self@.parts.take(self@.parts.len() as int) =~= self@.parts);
            assert(sv.take(self@.parts.len() as int).len() == self@.parts.len());
            lemma_captures_segs_prefix(self@.parts, sv, self@.parts.len() as int);
        }
        (true, caps)
    }
}

/// One more matched segment extends the captures by the new capture, if the
/// matcher at that position is a `Param`.
proof fn lemma_captures_take_step(parts: Seq<PartV>, segs: Seq<Seq<char>>, i: int)
    requires
        0 < i <= parts.len(),
        i <= segs.len(),
    ensures
        spec_captures(parts.take(i), segs.take(i)) == spec_captures(
            parts.take(i - 1),
            segs.take(i - 1),
        ) + (match parts[i - 1] {
            PartV::Param(n) => seq![(n, segs[i - 1])],
            _ => Seq::<(Seq<char>, Seq<char>)>::empty(),
        }),
    decreases i,
{
    if i == 1 {
        assert(parts.take(1).drop_first() =~= Seq::<PartV>::empty());
        assert(segs.take(1).drop_first() =~= Seq::<Seq<char>>::empty());
        assert(parts.take(1)[0] == parts[0]);
        assert(segs.take(1)[0] == segs[0]);
        assert(spec_captures(parts.take(0), segs.take(0)) =~~= Seq::<
            (Seq<char>, Seq<char>),
        >::empty());
        assert(spec_captures(parts.take(1).drop_first(), segs.take(1).drop_first()) =~~= Seq::<
            (Seq<char>, Seq<char>),
        >::empty());
        assert(spec_captures(parts.take(1), segs.take(1)) =~~= spec_captures(
            parts.take(0),
            segs.take(0),
        ) + (match parts[0] {
            PartV::Param(n) => seq![(n, segs[0])],
            _ => Seq::<(Seq<char>, Seq<char>)>::empty(),
        }));
    } else {
        lemma_captures_take_step(parts.drop_first(), segs.drop_first(), i - 1);
        assert(parts.take(i).drop_first() =~= parts.drop_first().take(i - 1));
        assert(segs.take(i).drop_first() =~= segs.drop_first().take(i - 1));
        assert(parts.take(i - 1).drop_first() =~= parts.drop_first().take(i - 2));
        assert(segs.take(i - 1).drop_first() =~= segs.drop_first().take(i - 2));
        assert(parts.drop_first()[i - 2] == parts[i - 1]);
        assert(segs.drop_first()[i - 2] == segs[i - 1]);
        assert(parts.take(i)[0] == parts[0]);
        assert(segs.take(i)[0] == segs[0]);
        assert(parts.take(i - 1)[0] == parts[0]);
        assert(segs.take(i - 1)[0] == segs[0]);
        assert(spec_captures(parts.take(i), segs.take(i)) =~~= spec_captures(
            parts.take(i - 1),
            segs.take(i - 1),
        ) + (match parts[i - 1] {
            PartV::Param(n) => seq![(n, segs[i - 1])],
            _ => Seq::<(Seq<char>, Seq<char>)>::empty(),
        }));
    }
}

/// The captures depend only on the first `parts.len()` segments.
proof fn lemma_captures_segs_prefix(parts: Seq<PartV>, segs: Seq<Seq<char>>, n: int)
    requires
        parts.len() <= n <= segs.len(),
    ensures
        spec_captures(parts, segs.take(n)) == spec_captures(parts, segs),
    decreases parts.len(),
{
    if parts.len() > 0 && segs.len() > 0 {
        lemma_captures_segs_prefix(parts.drop_first(), segs.drop_first(), n - 1);
        assert(segs.take(n).drop_first() =~= segs.drop_first().take(n - 1));
        assert(segs.take(n)[0] == segs[0]);
    }
}

/// The index of the first route whose pattern accepts the split path.
pub open spec fn first_match<H>(routes: Seq<(RoutePath, H)>, segs: Seq<Seq<char>>) -> Option<int>
    decreases routes.len(),
{
    if routes.len() == 0 {
        None
    } else if route_matches(routes[0].0@, segs) {
        Some(0int)
    } else {
        match first_match(routes.drop_first(), segs) {
            None => None,
            Some(j) => Some(j + 1),
        }
    }
}

/// Where no route among the first `i` matches and route `i` does, the first
/// match is at `i`.
proof fn lemma_first_match_at<H>(routes: Seq<(RoutePath, H)>, segs: Seq<Seq<char>>, i: int)
    requires
        0 <= i < routes.len(),
        forall|k: int| 0 <= k < i ==> !route_matches(#[trigger] routes[k].0@, segs),
        route_matches(routes[i].0@, segs),
    ensures
        first_match(routes, segs) == Some(i),
    decreases i,
{
    if i > 0 {
        lemma_first_match_at(routes.drop_first(), segs, i - 1);
    }
}

/// Where no route matches, there is no first match.
proof fn lemma_first_match_none<H>(routes: Seq<(RoutePath, H)>, segs: Seq<Seq<char>>)
    requires
        forall|k: int| 0 <= k < routes.len() ==> !route_matches(#[trigger] routes[k].0@, segs),
    ensures
        first_match(routes, segs) is None,
    decreases routes.len(),
{
    if routes.len() > 0 {
        lemma_first_match_none(routes.drop_first(), segs);
    }
}

/// Registration order is absolute: where the first registered route matches,
/// it wins, whatever any later route would match.
pub proof fn lemma_first_registered_wins<H>(routes: Seq<(RoutePath, H)>, segs: Seq<Seq<char>>)
    requires
        routes.len() > 0,
        route_matches(routes[0].0@, segs),
    ensures
        first_match(routes, segs) == Some(0int),
{
}

/// The captures of a pattern, as path-kind parameter entries.
pub open spec fn as_path_params(cs: Seq<(Seq<char>, Seq<char>)>) -> Seq<(ParamKey, Seq<char>)> {
    cs.map_values(|c: (Seq<char>, Seq<char>)| (ParamKey { kind: ParamKind::Path, name: c.0 }, c.1))
}

/// What every unrouted request is answered with: a bare 404, no payload.
pub open spec fn is_not_found_response<E>(resp: Response<E>) -> bool {
    &&& resp.status_code == 404
    &&& resp.status@ == status::spec_default(404)
    &&& resp.spec_headers() == Seq::<(Seq<char>, Seq<char>)>::empty()
    &&& resp.payload is None
}

/// A handler that dispatches to the first of an ordered route list whose
/// pattern matches the request path, merging the pattern's captures into the
/// request's parameters; with no match the outcome is a bare 404.
#[derive(Debug)]
pub struct Router<H> {
    pub routes: Vec<(RoutePath, H)>,
}

impl<H> Router<H> {
    /// A router with no routes, answering everything with 404.
    pub fn new() -> (r: Router<H>)
        ensures
            r.routes@ == Seq::<(RoutePath, H)>::empty(),
    {
        let r = Router { routes: Vec::new() };
        proof {
            assert(r.routes@ =~= Seq::<(RoutePath, H)>::empty());
        }
        r
    }

    /// Register one route after all routes held so far; earlier routes win.
    pub fn with_route(self, path: &str, handler: H) -> (r: Router<H>)
        ensures
            r.routes@.len() == self.routes@.len() + 1,
            r.routes@.last().0@ == spec_route_path(path@),
            r.routes@.last().1 == handler,
            forall|k: int| 0 <= k < self.routes@.len() ==> #[trigger] r.routes@[k]
                == self.routes@[k],
    {
        let mut routes = self.routes;
        routes.push((RoutePath::from_str(path), handler));
        Router { routes }
    }
}

impl<H> Default for Router<H> {
    /// A router with no routes.
    fn default() -> (r: Router<H>)
        ensures
            r.routes@ == Seq::<(RoutePath, H)>::empty(),
    {
        Router::new()
    }
}

impl<I, O, E, C, H: Handler<I, O, E, C>> Handler<I, O, E, C> for Router<H> {
    open spec fn ens(&self, request: Request<I>, c0: C, r: Res<O, E>, c1: C) -> bool {
        let segs = spec_split(request.path@, '/');
        match first_match(self.routes@, segs) {
            None => r is Err && is_not_found_response(r->Err_0) && c1 == c0,
            Some(i) => exists|req2: Request<I>|
                {
                    &&& req2.method == request.method
                    &&& req2.path == request.path
                    &&& req2.query == request.query
                    &&& req2.fragment == request.fragment
                    &&& req2.headers == request.headers
                    &&& req2.payload == request.payload
                    &&& req2.content_length == request.content_length
                    &&& req2.params@ == request.params@ + as_path_params(
                        spec_captures(self.routes@[i].0@.parts, segs),
                    )
                    &&& #[trigger] self.routes@[i].1.ens(req2, c0, r, c1)
                },
        }
    }

    /// Try the routes in registration order; the first whose pattern matches
    /// receives the request with its captures merged in, and with no match
    /// the outcome is a bare 404.
    #[verifier::loop_isolation(false)]
    fn handle(&self, request: Request<I>, context: C) -> (r: Handled<O, E, C>)
        ensures
            self.ens(request, context, r.0, r.1),
    {
        let ghost req0 = request;
        let ghost c0 = context;
        let ghost segs = spec_split(request.path@, '/');
        let mut i: usize = 0;
        while i < self.routes.len()
            invariant
                0 <= i <= self.routes@.len(),
                segs == spec_split(request.path@, '/'),
                forall|k: int| 0 <= k < i ==> !route_matches(#[trigger] self.routes@[k].0@, segs),
            decreases self.routes@.len() - i,
        {
            let (matched, caps) = self.routes[i].0.matches(request.path.as_str());
            if matched {
                proof {
                    lemma_first_match_at(self.routes@, segs, i as int);
                }
                let mut request = request;
                let ghost orig_params = request.params@;
                let ghost capsv = pairs_view(caps@);
                let mut k: usize = 0;
                while k < caps.len()
                    invariant
                        0 <= k <= caps@.len(),
                        capsv == pairs_view(caps@),
                        capsv.len() == caps@.len(),
                        forall|j: int| 0 <= j < caps@.len() ==> #[trigger] capsv[j] == (
                            caps@[j].0@,
                            caps@[j].1@,
                        ),
                        request.params@ == orig_params + as_path_params(capsv.take(k as int)),
                        request.method == req0.method,
                        request.path == req0.path,
                        request.query == req0.query,
                        request.fragment == req0.fragment,
                        request.headers == req0.headers,
                        request.payload == req0.payload,
                        request.content_length == req0.content_length,
                    decreases caps@.len() - k,
                {
                    let name = caps[k].0.clone();
                    let value = caps[k].1.clone();
                    request.params.add(Param::Path(name), value);
                    k = k + 1;
                    proof {
                        assert(request.params@ =~= orig_params + as_path_params(
                            capsv.take(k as int),
                        ));
                    }
                }
                proof {
                    assert(capsv.take(caps@.len() as int) =~= capsv);
                }
                let ghost req2 = request;
                let hh = &self.routes[i].1;
                proof {
                    assert(*hh == self.routes@[i as int].1);
                }
                let out = hh.handle(request, context);
                proof {
                    assert(hh.ens(req2, c0, out.0, out.1));
                    assert(self.routes@[i as int].1.ens(req2, c0, out.0, out.1));
                    assert(capsv == spec_captures(self.routes@[i as int].0@.parts, segs));
                    assert(req2.params@ == req0.params@ + as_path_params(
                        spec_captures(self.routes@[i as int].0@.parts, segs),
                    ));
                    let fm = first_match(self.routes@, segs);
                    assert(fm == Some(i as int));
                    assert(fm->Some_0 == i as int);
                    assert(self.routes@[fm->Some_0].1.ens(req2, c0, out.0, out.1));
                    assert(req2.params@ == req0.params@ + as_path_params(
                        spec_captures(self.routes@[fm->Some_0].0@.parts, segs),
                    ));
                    assert(spec_split(req0.path@, '/') == segs);
                    assert(self.routes@[first_match(
                        self.routes@,
                        spec_split(req0.path@, '/'),
                    )->Some_0].1.ens(req2, c0, out.0, out.1));
                    assert(self.ens(req0, c0, out.0, out.1));
                }
                return out;
            }
            i = i + 1;
        }
        proof {
            lemma_first_match_none(self.routes@, segs);
        }
        (Err(Response::new(404)), context)
    }
}

} // verus!
