//! The router: endpoints in the order of their registration, and the choice
//! of the endpoint that serves a request.

use crate::chain::Chain;
use crate::method::{admits, Method, RouteMethod};
use crate::path::{match_path, parse_pattern, same_pattern, ParsedPath, PathMatch, SegmentView};
use crate::text::starts_with;
use vstd::prelude::*;
use vstd::string::StrSliceExecFns;
use vstd::string::StringExecFns;

verus! {

/// The status of the reply to a request that no endpoint serves.
pub const NOT_FOUND_STATUS: u16 = 404;

/// A registered route: the methods it answers to, its pattern and its chain.
#[derive(Clone, Debug)]
pub struct Endpoint<M, H> {
    method: RouteMethod,
    path: ParsedPath,
    chain: Chain<M, H>,
}

/// An endpoint as a mathematical value.
pub struct EndpointView<M, H> {
    /// The one method that the endpoint answers to, or `None` for all.
    pub method: Option<Seq<char>>,
    /// The segments of its pattern.
    pub path: Seq<SegmentView>,
    /// Its chain.
    pub chain: Chain<M, H>,
}

impl<M, H> View for Endpoint<M, H> {
    type V = EndpointView<M, H>;

    closed spec fn view(&self) -> EndpointView<M, H> {
        EndpointView { method: self.method@, path: self.path@, chain: self.chain }
    }
}

impl<M, H> Endpoint<M, H> {
    fn new(method: RouteMethod, path: ParsedPath, chain: Chain<M, H>) -> (endpoint: Self)
        ensures
            endpoint@ == (EndpointView { method: method@, path: path@, chain }),
    {
        Endpoint { method, path, chain }
    }

    fn is_path(&self, path: &ParsedPath) -> (r: bool)
        ensures
            r == same_pattern(self@.path, path@),
    {
        self.path == *path
    }
}

/// Whether an endpoint serves a request with the given method and path: it
/// answers to the method, and the path matches its pattern.
pub open spec fn serves<M, H>(endpoint: EndpointView<M, H>, method: Seq<char>, path: Seq<char>) -> bool {
    admits(endpoint.method, method) && match_path(endpoint.path, path) is Some
}

/// The index of the first endpoint from index `from` on that serves the
/// request, if there is one.
pub open spec fn select<M, H>(
    endpoints: Seq<EndpointView<M, H>>,
    method: Seq<char>,
    path: Seq<char>,
    from: int,
) -> Option<int>
    decreases endpoints.len() - from,
{
    if from < 0 || from >= endpoints.len() {
        None
    } else if serves(endpoints[from], method, path) {
        Some(from)
    } else {
        select(endpoints, method, path, from + 1)
    }
}

/// The endpoints without those whose pattern is the same pattern as `path`,
/// the others in their order.
pub open spec fn without<M, H>(endpoints: Seq<EndpointView<M, H>>, path: Seq<SegmentView>) -> Seq<
    EndpointView<M, H>,
>
    decreases endpoints.len(),
{
    if endpoints.len() == 0 {
        endpoints
    } else if same_pattern(endpoints.last().path, path) {
        without(endpoints.drop_last(), path)
    } else {
        without(endpoints.drop_last(), path).push(endpoints.last())
    }
}

/// The endpoints after `endpoint` has been registered: what was registered
/// under its pattern before is gone, and it stands last.
pub open spec fn registered<M, H>(endpoints: Seq<EndpointView<M, H>>, endpoint: EndpointView<M, H>) -> Seq<
    EndpointView<M, H>,
> {
    without(endpoints, endpoint.path).push(endpoint)
}

/// No two endpoints have the same pattern.
pub open spec fn distinct<M, H>(endpoints: Seq<EndpointView<M, H>>) -> bool {
    forall|i: int, j: int|
        0 <= i < j < endpoints.len() ==> !same_pattern(
            (#[trigger] endpoints[i]).path,
            (#[trigger] endpoints[j]).path,
        )
}

/// The stripped path that a router mounted under `prefix` matches its
/// patterns against.
pub open spec fn stripped(prefix: Seq<char>, full_path: Seq<char>) -> Seq<char> {
    full_path.skip(prefix.len() as int)
}

/// What the router decided for a request.
pub enum Dispatch<'a, M, H> {
    /// Run this chain; `params` holds what the pattern captured.
    Run { chain: &'a Chain<M, H>, params: PathMatch },
    /// No endpoint serves the request: reply with this status and body.
    NotFound { status: u16, body: &'static str },
}

/// Endpoints in the order of their registration, with the prefix that the
/// router is mounted under.
#[derive(Clone, Debug)]
pub struct Router<M, H> {
    prefix: String,
    endpoints: Vec<Endpoint<M, H>>,
}

impl<M, H> Router<M, H> {
    /// The prefix that the router is mounted under.
    pub closed spec fn prefix(&self) -> Seq<char> {
        self.prefix@
    }

    /// The endpoints in the order of their registration.
    pub closed spec fn endpoints(&self) -> Seq<EndpointView<M, H>> {
        self.endpoints@.map_values(|e: Endpoint<M, H>| e@)
    }

    /// The invariant of a router: no pattern is registered twice.
    pub open spec fn wf(&self) -> bool {
        distinct(self.endpoints())
    }

    /// Creates a new router: no endpoints, mounted at the root.
    pub fn new() -> (router: Router<M, H>)
        ensures
            router.prefix() == Seq::<char>::empty(),
            router.endpoints() == Seq::<EndpointView<M, H>>::empty(),
            router.wf(),
    {
        Router { prefix: String::new(), endpoints: Vec::new() }
    }

    /// Tells the router the prefix that it is mounted under.
    pub fn set_prefix(&mut self, prefix: &str)
        ensures
            final(self).prefix() == prefix@,
            final(self).endpoints() == old(self).endpoints(),
    {
        self.prefix = String::from_str(prefix);
    }

    /// Whether `full_path` lies under the prefix that the router is mounted
    /// under, so that the router can be asked to dispatch it.
    pub fn covers(&self, full_path: &str) -> (r: bool)
        ensures
            r == self.prefix().is_prefix_of(full_path@),
    {
        starts_with(full_path, self.prefix.as_str())
    }

    /// The number of endpoints.
    pub fn len(&self) -> (n: usize)
        ensures
            n == self.endpoints().len(),
    {
        self.endpoints.len()
    }

    /// Removes what is registered under `path`.
    pub fn reset(&mut self, path: &ParsedPath)
        ensures
            final(self).endpoints() == without(old(self).endpoints(), path@),
            final(self).prefix() == old(self).prefix(),
            old(self).wf() ==> final(self).wf(),
    {
        let ghost before = self.endpoints();
        let ghost mut k: int = 0;
        proof {
            lemma_without(before, path@);
        }
        let mut i: usize = 0;
        assert(before.take(0) == Seq::<EndpointView<M, H>>::empty());
        while i < self.endpoints.len()
            invariant
                self.prefix() == old(self).prefix(),
                0 <= i <= self.endpoints().len(),
                self.endpoints().len() == self.endpoints@.len(),
                i <= k <= before.len(),
                self.endpoints().take(i as int) == without(before.take(k), path@),
                self.endpoints().skip(i as int) == before.skip(k),
            decreases self.endpoints.len() - i,
        {
            let ghost now = self.endpoints();
            assert(now.skip(i as int).len() == before.skip(k).len());
            assert(k < before.len());
            assert(now.skip(i as int)[0] == before.skip(k)[0]);
            assert(before.take(k + 1).drop_last() == before.take(k));
            assert(now[i as int] == self.endpoints@[i as int]@);
            if self.endpoints[i].is_path(path) {
                let _ = self.endpoints.remove(i);
                proof {
                    assert(self.endpoints() == now.remove(i as int));
                    assert(self.endpoints().take(i as int) == now.take(i as int));
                    assert(self.endpoints().skip(i as int) == now.skip(i as int).drop_first());
                    assert(before.skip(k).drop_first() == before.skip(k + 1));
                    k = k + 1;
                }
            } else {
                proof {
                    assert(now.take(i + 1) == now.take(i as int).push(now[i as int]));
                    assert(now.skip(i as int).drop_first() == now.skip(i + 1));
                    assert(before.skip(k).drop_first() == before.skip(k + 1));
                    k = k + 1;
                }
                i += 1;
            }
        }
        assert(self.endpoints().take(i as int) == self.endpoints());
        assert(before.skip(k).len() == 0);
        assert(before.take(k) == before);
    }

    /// Appends the endpoint for `method` and `path` whose chain is `mw`
    /// around `end`, the first of `mw` outermost.
    fn add_handler(&mut self, method: RouteMethod, path: ParsedPath, mw: Vec<M>, end: H)
        ensures
            final(self).endpoints() == old(self).endpoints().push(
                EndpointView { method: method@, path: path@, chain: Chain::of(mw@, end) },
            ),
            final(self).prefix() == old(self).prefix(),
    {
        let ghost before = self.endpoints();
        let chain = Chain::build(mw, end);
        let endpoint = Endpoint::new(method, path, chain);
        self.endpoints.push(endpoint);
        assert(self.endpoints() == before.push(endpoint@));
    }

    /// Registers an endpoint: what was registered under the same pattern
    /// before is removed, whatever its method, and the new endpoint stands
    /// last.
    pub fn register(&mut self, method: RouteMethod, path: ParsedPath, mw: Vec<M>, end: H)
        ensures
            final(self).endpoints() == registered(
                old(self).endpoints(),
                EndpointView { method: method@, path: path@, chain: Chain::of(mw@, end) },
            ),
            final(self).prefix() == old(self).prefix(),
            old(self).wf() ==> final(self).wf(),
    {
        let ghost before = self.endpoints();
        self.reset(&path);
        self.add_handler(method, path, mw, end);
        proof {
            if distinct(before) {
                lemma_registered_distinct(
                    before,
                    EndpointView { method: method@, path: path@, chain: Chain::of(mw@, end) },
                );
            }
        }
    }

    /// Starts the registration of a route under the pattern `path`. What was
    /// registered under the same pattern before is removed at once; the
    /// returned route takes the middleware and the handler.
    pub fn at(&mut self, path: &str) -> (route: Route<'_, M, H>)
        ensures
            route.path@ == parse_pattern(path@),
            route.mw@ == Seq::<M>::empty(),
            route.router.endpoints() == without(old(self).endpoints(), parse_pattern(path@)),
            route.router.prefix() == old(self).prefix(),
            old(self).wf() ==> route.router.wf(),
            *final(self) == *final(route.router),
    {
        let path = ParsedPath::parse(path);
        self.reset(&path);
        Route { router: self, path, mw: Vec::new() }
    }

    /// Chooses the endpoint for a request: the first one, in the order of
    /// registration, that answers to `method` and whose pattern matches
    /// `full_path` without the router's prefix. Where there is none, the
    /// reply is status 404 with the body `Not found`.
    pub fn dispatch(&self, method: &Method, full_path: &str) -> (found: Dispatch<'_, M, H>)
        requires
            self.prefix().is_prefix_of(full_path@),
        ensures
            match found {
                Dispatch::Run { chain, params } => {
                    let path = stripped(self.prefix(), full_path@);
                    &&& select(self.endpoints(), method@, path, 0) matches Some(k)
                    &&& *chain == self.endpoints()[k].chain
                    &&& match_path(self.endpoints()[k].path, path) == Some(params.bindings())
                },
                Dispatch::NotFound { status, body } => {
                    &&& select(
                        self.endpoints(),
                        method@,
                        stripped(self.prefix(), full_path@),
                        0,
                    ) is None
                    &&& status == NOT_FOUND_STATUS
                    &&& body@ == "Not found"@
                },
            },
    {
        let path = full_path.substring_char(
            self.prefix.as_str().unicode_len(),
            full_path.unicode_len(),
        );
        assert(full_path@.subrange(self.prefix@.len() as int, full_path@.len() as int)
            == stripped(self.prefix(), full_path@));
        let ghost all = self.endpoints();
        let mut i: usize = 0;
        while i < self.endpoints.len()
            invariant
                i <= self.endpoints.len(),
                all == self.endpoints(),
                all.len() == self.endpoints@.len(),
                path@ == stripped(self.prefix(), full_path@),
                select(all, method@, path@, 0) == select(all, method@, path@, i as int),
            decreases self.endpoints.len() - i,
        {
            let endpoint = &self.endpoints[i];
            assert(all[i as int] == endpoint@);
            if endpoint.method == *method {
                match endpoint.path.path_match(path) {
                    Some(params) => {
                        return Dispatch::Run { chain: &endpoint.chain, params };
                    },
                    None => {},
                }
            }
            i += 1;
        }
        Dispatch::NotFound { status: NOT_FOUND_STATUS, body: "Not found" }
    }
}

/// A route that is being registered: the router it goes to, its pattern, and
/// the middleware given so far, the outermost first.
pub struct Route<'a, M, H> {
    pub router: &'a mut Router<M, H>,
    pub path: ParsedPath,
    pub mw: Vec<M>,
}

impl<'a, M, H> Route<'a, M, H> {
    /// Adds a middleware. It runs after those added before it.
    pub fn middleware(self, mid: M) -> (route: Route<'a, M, H>)
        ensures
            route.router == self.router,
            route.path == self.path,
            route.mw@ == self.mw@.push(mid),
    {
        let mut route = self;
        route.mw.push(mid);
        route
    }

    /// Ends the registration with the handler `end`, for requests of the
    /// given method.
    pub fn method(self, method: Method, end: H)
        ensures
            final(self.router).endpoints() == registered(
                old(self.router).endpoints(),
                EndpointView {
                    method: Some(method@),
                    path: self.path@,
                    chain: Chain::of(self.mw@, end),
                },
            ),
            final(self.router).prefix() == old(self.router).prefix(),
            old(self.router).wf() ==> final(self.router).wf(),
    {
        self.router.register(RouteMethod::Method(method), self.path, self.mw, end);
    }

    /// Ends the registration with the handler `end`, for requests of every
    /// method.
    pub fn all(self, end: H)
        ensures
            final(self.router).endpoints() == registered(
                old(self.router).endpoints(),
                EndpointView { method: None, path: self.path@, chain: Chain::of(self.mw@, end) },
            ),
            final(self.router).prefix() == old(self.router).prefix(),
            old(self.router).wf() ==> final(self.router).wf(),
    {
        self.router.register(RouteMethod::All, self.path, self.mw, end);
    }
}

/// What taking out the endpoints with pattern `path` leaves: none with that
/// pattern, each of the others, and no pattern twice where there was none
/// twice before.
pub proof fn lemma_without<M, H>(endpoints: Seq<EndpointView<M, H>>, path: Seq<SegmentView>)
    ensures
        without(endpoints, path).len() <= endpoints.len(),
        forall|i: int|
            0 <= i < without(endpoints, path).len() ==> !same_pattern(
                (#[trigger] without(endpoints, path)[i]).path,
                path,
            ),
        forall|i: int|
            0 <= i < without(endpoints, path).len() ==> endpoints.contains(
                #[trigger] without(endpoints, path)[i],
            ),
        forall|a: int|
            0 <= a < endpoints.len() && !same_pattern((#[trigger] endpoints[a]).path, path)
                ==> without(endpoints, path).contains(endpoints[a]),
        distinct(endpoints) ==> distinct(without(endpoints, path)),
    decreases endpoints.len(),
{
    if endpoints.len() > 0 {
        let head = endpoints.drop_last();
        let kept = without(endpoints, path);
        let before = without(head, path);
        lemma_without(head, path);
        assert forall|i: int| 0 <= i < kept.len() implies endpoints.contains(#[trigger] kept[i]) by {
            if i < before.len() {
                assert(head.contains(before[i]));
                let a = choose|a: int| 0 <= a < head.len() && head[a] == before[i];
                assert(endpoints[a] == kept[i]);
            } else {
                assert(endpoints[endpoints.len() - 1] == kept[i]);
            }
        }
        assert forall|a: int|
            0 <= a < endpoints.len() && !same_pattern(
                (#[trigger] endpoints[a]).path,
                path,
            ) implies kept.contains(endpoints[a]) by {
            if a < head.len() {
                assert(head[a] == endpoints[a]);
                assert(before.contains(head[a]));
                let i = choose|i: int| 0 <= i < before.len() && before[i] == head[a];
                assert(kept[i] == endpoints[a]);
            } else {
                assert(kept[kept.len() - 1] == endpoints[a]);
            }
        }
        if distinct(endpoints) {
            assert(distinct(head)) by {
                assert forall|i: int, j: int| 0 <= i < j < head.len() implies !same_pattern(
                    (#[trigger] head[i]).path,
                    (#[trigger] head[j]).path,
                ) by {
                    assert(head[i] == endpoints[i] && head[j] == endpoints[j]);
                }
            }
            assert forall|i: int, j: int| 0 <= i < j < kept.len() implies !same_pattern(
                (#[trigger] kept[i]).path,
                (#[trigger] kept[j]).path,
            ) by {
                if j < before.len() {
                    assert(kept[i] == before[i] && kept[j] == before[j]);
                } else {
                    assert(head.contains(before[i]));
                    let a = choose|a: int| 0 <= a < head.len() && head[a] == before[i];
                    assert(endpoints[a] == kept[i]);
                    assert(endpoints[endpoints.len() - 1] == kept[j]);
                }
            }
        }
    }
}

/// Taking out the endpoints of a pattern goes by the pattern, not by the
/// names of its wildcards: two paths that are the same pattern take out the
/// same endpoints.
pub proof fn lemma_without_same<M, H>(
    endpoints: Seq<EndpointView<M, H>>,
    a: Seq<SegmentView>,
    b: Seq<SegmentView>,
)
    requires
        same_pattern(a, b),
    ensures
        without(endpoints, a) == without(endpoints, b),
    decreases endpoints.len(),
{
    if endpoints.len() > 0 {
        lemma_without_same(endpoints.drop_last(), a, b);
    }
}

/// Registering keeps the patterns distinct.
pub proof fn lemma_registered_distinct<M, H>(endpoints: Seq<EndpointView<M, H>>, endpoint: EndpointView<M, H>)
    requires
        distinct(endpoints),
    ensures
        distinct(registered(endpoints, endpoint)),
{
    lemma_without(endpoints, endpoint.path);
    let kept = without(endpoints, endpoint.path);
    let after = registered(endpoints, endpoint);
    assert forall|i: int, j: int| 0 <= i < j < after.len() implies !same_pattern(
        (#[trigger] after[i]).path,
        (#[trigger] after[j]).path,
    ) by {
        assert(after[i] == kept[i]);
        if j < kept.len() {
            assert(after[j] == kept[j]);
        }
    }
}

/// What `select` finds: the endpoint it names serves the request and none
/// from `from` up to it does; where it names none, none from `from` on does.
pub proof fn lemma_select<M, H>(
    endpoints: Seq<EndpointView<M, H>>,
    method: Seq<char>,
    path: Seq<char>,
    from: int,
)
    requires
        0 <= from,
    ensures
        match select(endpoints, method, path, from) {
            Some(k) => {
                &&& from <= k < endpoints.len()
                &&& serves(endpoints[k], method, path)
                &&& forall|j: int| from <= j < k ==> !serves(#[trigger] endpoints[j], method, path)
            },
            None => forall|j: int|
                from <= j < endpoints.len() ==> !serves(#[trigger] endpoints[j], method, path),
        },
    decreases endpoints.len() - from,
{
    if from < endpoints.len() && !serves(endpoints[from], method, path) {
        lemma_select(endpoints, method, path, from + 1);
    }
}

/// A request is served by the endpoint that answers to its method and whose
/// pattern matches its path, provided that no endpoint registered before it
/// does so too: dispatch runs that endpoint's chain, with the parameters that
/// its pattern captures from the path.
pub proof fn lemma_dispatch_runs_matching_endpoint<M, H>(
    endpoints: Seq<EndpointView<M, H>>,
    method: Seq<char>,
    path: Seq<char>,
    k: int,
)
    requires
        0 <= k < endpoints.len(),
        serves(endpoints[k], method, path),
        forall|j: int| 0 <= j < k ==> !serves(#[trigger] endpoints[j], method, path),
    ensures
        select(endpoints, method, path, 0) == Some(k),
        match_path(endpoints[k].path, path) is Some,
{
    lemma_select(endpoints, method, path, 0);
}

/// A request whose path matches no registered pattern is served by no
/// endpoint: dispatch answers it with status 404 and the body `Not found`.
pub proof fn lemma_unmatched_path_is_not_found<M, H>(
    endpoints: Seq<EndpointView<M, H>>,
    method: Seq<char>,
    path: Seq<char>,
)
    requires
        forall|j: int|
            0 <= j < endpoints.len() ==> match_path((#[trigger] endpoints[j]).path, path) is None,
    ensures
        select(endpoints, method, path, 0) is None,
{
    lemma_select(endpoints, method, path, 0);
}

/// The order of registration decides between endpoints that serve the same
/// request: of two such endpoints the later one is never chosen.
pub proof fn lemma_registration_order_decides<M, H>(
    endpoints: Seq<EndpointView<M, H>>,
    method: Seq<char>,
    path: Seq<char>,
    first: int,
    second: int,
)
    requires
        0 <= first < second < endpoints.len(),
        serves(endpoints[first], method, path),
        serves(endpoints[second], method, path),
    ensures
        select(endpoints, method, path, 0) matches Some(k) && k <= first,
        select(endpoints, method, path, 0) != Some(second),
{
    lemma_select(endpoints, method, path, 0);
}

/// Taking out the endpoints with a pattern leaves nothing to take out a
/// second time.
pub proof fn lemma_without_twice<M, H>(endpoints: Seq<EndpointView<M, H>>, path: Seq<SegmentView>)
    ensures
        without(without(endpoints, path), path) == without(endpoints, path),
    decreases endpoints.len(),
{
    if endpoints.len() > 0 {
        lemma_without_twice(endpoints.drop_last(), path);
        if !same_pattern(endpoints.last().path, path) {
            let kept = without(endpoints.drop_last(), path);
            assert(kept.push(endpoints.last()).drop_last() == kept);
        }
    }
}

/// After a registration there is one endpoint for the registered pattern:
/// the new one, which stands last. No other endpoint has its pattern,
/// whatever was registered before.
pub proof fn lemma_registered_once<M, H>(endpoints: Seq<EndpointView<M, H>>, endpoint: EndpointView<M, H>)
    ensures
        registered(endpoints, endpoint).len() >= 1,
        registered(endpoints, endpoint).last() == endpoint,
        forall|i: int|
            0 <= i < registered(endpoints, endpoint).len() - 1 ==> !same_pattern(
                (#[trigger] registered(endpoints, endpoint)[i]).path,
                endpoint.path,
            ),
{
    lemma_without(endpoints, endpoint.path);
}

/// Registering the same pattern twice leaves one endpoint for it, with the
/// method and the chain of the second registration. The first registration
/// leaves no trace: the endpoints are those that the second alone would have
/// left. Neither the methods nor the chains of the two matter.
pub proof fn lemma_second_registration_replaces<M, H>(
    endpoints: Seq<EndpointView<M, H>>,
    first: EndpointView<M, H>,
    second: EndpointView<M, H>,
)
    requires
        same_pattern(first.path, second.path),
    ensures
        registered(registered(endpoints, first), second) == registered(endpoints, second),
        registered(registered(endpoints, first), second).last() == second,
        forall|i: int|
            0 <= i < registered(registered(endpoints, first), second).len() - 1 ==> !same_pattern(
                (#[trigger] registered(registered(endpoints, first), second)[i]).path,
                second.path,
            ),
{
    let path = second.path;
    let kept = without(endpoints, path);
    lemma_without_same(endpoints, first.path, path);
    lemma_without_twice(endpoints, path);
    lemma_registered_once(endpoints, second);
    assert(kept.push(first).drop_last() == kept);
    assert(without(kept.push(first), path) == kept);
}

} // verus!
