//! A router that routes a path to an endpoint while resolving path
//! parameters.
//!
//! Any route segment starting with `[` is a path parameter, and the route
//! `%404` under the root is the fallback when no other route matches. The
//! routing table is a trie kept in an arena: node 0 is the root and every
//! child has a larger index than its parent. Handlers are named by the index
//! that the embedding program gives them.
use vstd::prelude::*;

use crate::method::HttpMethod;
use crate::text::{
    chars_eq, chars_of, concat, lines, lines_of, push_all, push_str, replace, replace_all, split_by,
    split_pat, string_of, views,
};

verus! {

/// The index of a handler function in the embedding program's table.
pub type HandlerId = usize;

/// What a route leads to: an endpoint with its method mask, or a middleware.
#[derive(Clone, Copy, Debug, PartialEq, Eq, Structural)]
pub enum HandlerOrMiddleware {
    Handler(HandlerId, u16),
    Middleware(HandlerId),
}

/// The description of a route: its segments and what it leads to.
pub type RouteSlice = (Vec<String>, HandlerOrMiddleware);

/// One node of the routing trie.
pub struct RouteNode {
    segments: Vec<(Vec<char>, usize)>,
    endpoints: Vec<(HandlerId, u16)>,
    middleware: Option<HandlerId>,
}

/// The abstract value of a node: its children by key, its endpoints with
/// their method masks, and its middleware.
pub struct NodeView {
    pub segments: Seq<(Seq<char>, usize)>,
    pub endpoints: Seq<(HandlerId, u16)>,
    pub middleware: Option<HandlerId>,
}

impl View for RouteNode {
    type V = NodeView;

    closed spec fn view(&self) -> NodeView {
        NodeView {
            segments: self.segments@.map_values(|e: (Vec<char>, usize)| (e.0@, e.1)),
            endpoints: self.endpoints@,
            middleware: self.middleware,
        }
    }
}

/// The routing table.
pub struct Router {
    nodes: Vec<RouteNode>,
}

/// The abstract value of a table of nodes.
pub open spec fn nodes_view(v: Seq<RouteNode>) -> Seq<NodeView> {
    v.map_values(|n: RouteNode| n@)
}

impl View for Router {
    type V = Seq<NodeView>;

    closed spec fn view(&self) -> Seq<NodeView> {
        nodes_view(self.nodes@)
    }
}

// ------------------------------------------------------------------------
// Specification
// ------------------------------------------------------------------------

/// The key under which a route's path parameters are stored.
pub open spec fn param_key() -> Seq<char> {
    seq!['%', 'p', 'a', 'r', 'a', 'm']
}

/// The root key of the fallback route.
pub open spec fn fallback_key() -> Seq<char> {
    seq!['%', '4', '0', '4']
}

/// The key that a route segment is stored under.
pub open spec fn route_key(seg: Seq<char>) -> Seq<char> {
    if seg.len() > 0 && seg[0] == '[' {
        param_key()
    } else {
        seg
    }
}

pub open spec fn empty_node() -> NodeView {
    NodeView { segments: Seq::empty(), endpoints: Seq::empty(), middleware: None }
}

/// Whether a key can be stored: it is not empty and does not start with `[`
/// (such segments are stored under the parameter key).
pub open spec fn valid_key(k: Seq<char>) -> bool {
    k.len() > 0 && k[0] != '['
}

/// Whether all the keys can be stored.
pub open spec fn valid_keys(keys: Seq<Seq<char>>) -> bool {
    forall|i: int| 0 <= i < keys.len() ==> valid_key(#[trigger] keys[i])
}

/// Every child index points forward, into the table; the root exists; no
/// child key is empty or starts with `[`.
pub open spec fn wf_nodes(ns: Seq<NodeView>) -> bool {
    &&& ns.len() >= 1
    &&& forall|i: int, j: int|
        0 <= i < ns.len() && 0 <= j < ns[i].segments.len() ==> i < (
        #[trigger] ns[i].segments[j]).1 < ns.len() && valid_key(ns[i].segments[j].0)
}

/// The child stored under `key`: the first entry with that key.
pub open spec fn find_child(segs: Seq<(Seq<char>, usize)>, key: Seq<char>) -> Option<usize>
    decreases segs.len(),
{
    if segs.len() == 0 {
        None
    } else if segs[0].0 == key {
        Some(segs[0].1)
    } else {
        find_child(segs.drop_first(), key)
    }
}

/// Records a handler or middleware at node `n`.
pub open spec fn attach(ns: Seq<NodeView>, n: int, hm: HandlerOrMiddleware) -> Seq<NodeView> {
    match hm {
        HandlerOrMiddleware::Handler(h, mask) => ns.update(
            n,
            NodeView { endpoints: ns[n].endpoints.push((h, mask)), ..ns[n] },
        ),
        HandlerOrMiddleware::Middleware(h) => ns.update(
            n,
            NodeView { middleware: Some(h), ..ns[n] },
        ),
    }
}

/// The table after walking `keys` down from node `n`, creating missing
/// children, and recording `hm` where the walk ends.
pub open spec fn insert_route(
    ns: Seq<NodeView>,
    n: int,
    keys: Seq<Seq<char>>,
    hm: HandlerOrMiddleware,
) -> Seq<NodeView>
    decreases keys.len(),
{
    if keys.len() == 0 {
        attach(ns, n, hm)
    } else {
        match find_child(ns[n].segments, keys[0]) {
            Some(c) => insert_route(ns, c as int, keys.drop_first(), hm),
            None => insert_route(grow(ns, n, keys[0]), ns.len() as int, keys.drop_first(), hm),
        }
    }
}

/// The table with a new, empty node appended as the child of `n` under `key`.
pub open spec fn grow(ns: Seq<NodeView>, n: int, key: Seq<char>) -> Seq<NodeView> {
    ns.update(
        n,
        NodeView { segments: ns[n].segments.push((key, ns.len() as usize)), ..ns[n] },
    ).push(empty_node())
}

/// The node where `insert_route` records the handler or middleware.
pub open spec fn insert_target(ns: Seq<NodeView>, n: int, keys: Seq<Seq<char>>) -> int
    decreases keys.len(),
{
    if keys.len() == 0 {
        n
    } else {
        match find_child(ns[n].segments, keys[0]) {
            Some(c) => insert_target(ns, c as int, keys.drop_first()),
            None => insert_target(grow(ns, n, keys[0]), ns.len() as int, keys.drop_first()),
        }
    }
}

/// Every node of `a` keeps its children, in order, at the start of its
/// children in `b`.
pub open spec fn extends(a: Seq<NodeView>, b: Seq<NodeView>) -> bool {
    &&& a.len() <= b.len()
    &&& forall|i: int|
        0 <= i < a.len() ==> a[i].segments.len() <= (#[trigger] b[i]).segments.len() && forall|
            j: int,
        | 0 <= j < a[i].segments.len() ==> b[i].segments[j] == a[i].segments[j]
}

/// The keys of a route's segments; empty segments are dropped, so that the
/// route `/` is the root.
pub open spec fn route_keys(route: Seq<String>) -> Seq<Seq<char>>
    decreases route.len(),
{
    if route.len() == 0 {
        Seq::empty()
    } else if route.last()@.len() == 0 {
        route_keys(route.drop_last())
    } else {
        route_keys(route.drop_last()).push(route_key(route.last()@))
    }
}

/// The keys of a route can all be stored.
proof fn lemma_route_keys_valid(route: Seq<String>)
    ensures
        valid_keys(route_keys(route)),
    decreases route.len(),
{
    if route.len() > 0 {
        lemma_route_keys_valid(route.drop_last());
        let rest = route_keys(route.drop_last());
        if route.last()@.len() > 0 {
            let k = route_key(route.last()@);
            assert(valid_key(k));
            assert forall|i: int| 0 <= i < rest.push(k).len() implies valid_key(#[trigger] rest.push(k)[i]) by {
                if i < rest.len() {
                    assert(rest.push(k)[i] == rest[i]);
                }
            }
        }
    }
}

/// The node reached from `n` by following `keys` exactly.
pub open spec fn walk(ns: Seq<NodeView>, n: int, keys: Seq<Seq<char>>) -> Option<int>
    decreases keys.len(),
{
    if keys.len() == 0 {
        Some(n)
    } else {
        match find_child(ns[n].segments, keys[0]) {
            Some(c) => walk(ns, c as int, keys.drop_first()),
            None => None,
        }
    }
}

/// The path without a leading `/` and without its query, split at `/`.
pub open spec fn path_segments(path: Seq<char>) -> Seq<Seq<char>> {
    let p = if path.len() > 0 && path[0] == '/' {
        path.drop_first()
    } else {
        path
    };
    split_pat(split_pat(p, seq!['?'])[0], seq!['/'])
}

pub open spec fn middleware_of(node: NodeView) -> Seq<HandlerId> {
    match node.middleware {
        Some(h) => seq![h],
        None => Seq::empty(),
    }
}

/// Resolves the remaining segments from node `cur`: an exact child first,
/// then the parameter child (recording the segment), then the root's
/// fallback; empty segments are skipped. Middlewares of the visited nodes
/// are collected.
pub open spec fn route_walk(
    ns: Seq<NodeView>,
    segs: Seq<Seq<char>>,
    cur: int,
    params: Seq<Seq<char>>,
    mws: Seq<HandlerId>,
) -> Option<(int, Seq<Seq<char>>, Seq<HandlerId>)>
    decreases segs.len(),
{
    if segs.len() == 0 {
        Some((cur, params, mws))
    } else if segs[0].len() == 0 {
        route_walk(ns, segs.drop_first(), cur, params, mws)
    } else {
        let seg = segs[0];
        match find_child(ns[cur].segments, seg) {
            Some(c) => route_walk(
                ns,
                segs.drop_first(),
                c as int,
                params,
                mws + middleware_of(ns[c as int]),
            ),
            None => match find_child(ns[cur].segments, param_key()) {
                Some(c) => route_walk(
                    ns,
                    segs.drop_first(),
                    c as int,
                    params.push(seg),
                    mws + middleware_of(ns[c as int]),
                ),
                None => match find_child(ns[0].segments, fallback_key()) {
                    Some(c) => route_walk(
                        ns,
                        segs.drop_first(),
                        c as int,
                        params,
                        mws + middleware_of(ns[c as int]),
                    ),
                    None => None,
                },
            },
        }
    }
}

/// The node a path resolves to, its path parameters, and the middlewares on
/// the way, starting with the root's.
pub open spec fn route_spec(ns: Seq<NodeView>, path: Seq<char>) -> Option<
    (int, Seq<Seq<char>>, Seq<HandlerId>),
> {
    route_walk(ns, path_segments(path), 0, Seq::empty(), middleware_of(ns[0]))
}

/// Whether an endpoint with method mask `mask` serves a method with bits `bits`.
pub open spec fn serves(bits: u16, mask: u16) -> bool {
    (bits & mask) > 0 || mask == 0xffffu16
}

/// The first endpoint that serves the method.
pub open spec fn method_spec(eps: Seq<(HandlerId, u16)>, bits: u16) -> Option<HandlerId>
    decreases eps.len(),
{
    if eps.len() == 0 {
        None
    } else if serves(bits, eps[0].1) {
        Some(eps[0].0)
    } else {
        method_spec(eps.drop_first(), bits)
    }
}

/// The handlers to run for a request, middlewares first and the endpoint
/// last, with the path parameters.
pub open spec fn handler_spec(ns: Seq<NodeView>, path: Seq<char>, bits: u16) -> Option<
    (Seq<HandlerId>, Seq<Seq<char>>),
> {
    match route_spec(ns, path) {
        Some((n, params, mws)) => match method_spec(ns[n].endpoints, bits) {
            Some(h) => Some((mws.push(h), params)),
            None => None,
        },
        None => None,
    }
}

// ------------------------------------------------------------------------
// Lemmas
// ------------------------------------------------------------------------

proof fn lemma_find_child_in(segs: Seq<(Seq<char>, usize)>, key: Seq<char>)
    ensures
        find_child(segs, key) matches Some(c) ==> exists|j: int|
            0 <= j < segs.len() && #[trigger] segs[j] == (key, c),
        find_child(segs, key) is None ==> forall|j: int|
            0 <= j < segs.len() ==> (#[trigger] segs[j]).0 != key,
    decreases segs.len(),
{
    if segs.len() > 0 {
        lemma_find_child_in(segs.drop_first(), key);
        assert forall|j: int| 1 <= j < segs.len() implies #[trigger] segs[j] == segs.drop_first()[j - 1] by {}
        if segs[0].0 != key {
            if let Some(c) = find_child(segs.drop_first(), key) {
                let j = choose|j: int|
                    0 <= j < segs.drop_first().len() && #[trigger] segs.drop_first()[j] == (key, c);
                assert(segs[j + 1] == (key, c));
            }
        }
    }
}

proof fn lemma_find_child_push(segs: Seq<(Seq<char>, usize)>, e: (Seq<char>, usize), key: Seq<char>)
    ensures
        find_child(segs.push(e), key) == (match find_child(segs, key) {
            Some(c) => Some(c),
            None => if e.0 == key {
                Some(e.1)
            } else {
                None
            },
        }),
    decreases segs.len(),
{
    if segs.len() == 0 {
        assert(segs.push(e).drop_first() =~= Seq::<(Seq<char>, usize)>::empty());
    } else {
        assert(segs.push(e).drop_first() =~= segs.drop_first().push(e));
        lemma_find_child_push(segs.drop_first(), e, key);
    }
}

proof fn lemma_child_bounds(ns: Seq<NodeView>, n: int, key: Seq<char>)
    requires
        wf_nodes(ns),
        0 <= n < ns.len(),
    ensures
        find_child(ns[n].segments, key) matches Some(c) ==> n < c < ns.len(),
{
    lemma_find_child_in(ns[n].segments, key);
}

proof fn lemma_attach_wf(ns: Seq<NodeView>, n: int, hm: HandlerOrMiddleware)
    requires
        wf_nodes(ns),
        0 <= n < ns.len(),
    ensures
        wf_nodes(attach(ns, n, hm)),
        attach(ns, n, hm).len() == ns.len(),
{
    let r = attach(ns, n, hm);
    assert forall|i: int, j: int|
        0 <= i < r.len() && 0 <= j < r[i].segments.len() implies i < (
        #[trigger] r[i].segments[j]).1 < r.len() && valid_key(r[i].segments[j].0) by {
        assert(r[i].segments == ns[i].segments);
    }
}

/// Inserting keeps the table well formed and only grows it.
pub proof fn lemma_insert_wf(ns: Seq<NodeView>, n: int, keys: Seq<Seq<char>>, hm: HandlerOrMiddleware)
    requires
        wf_nodes(ns),
        0 <= n < ns.len(),
        ns.len() + keys.len() <= usize::MAX,
        valid_keys(keys),
    ensures
        wf_nodes(insert_route(ns, n, keys, hm)),
        insert_route(ns, n, keys, hm).len() >= ns.len(),
    decreases keys.len(),
{
    if keys.len() == 0 {
        lemma_attach_wf(ns, n, hm);
    } else {
        match find_child(ns[n].segments, keys[0]) {
            Some(c) => {
                lemma_child_bounds(ns, n, keys[0]);
                assert forall|i: int| 0 <= i < keys.drop_first().len() implies valid_key(
                    #[trigger] keys.drop_first()[i]) by {
                    assert(keys.drop_first()[i] == keys[i + 1]);
                }
                lemma_insert_wf(ns, c as int, keys.drop_first(), hm);
            },
            None => {
                let m = ns.len();
                let ns2 = grow(ns, n, keys[0]);
                assert forall|i: int, j: int|
                    0 <= i < ns2.len() && 0 <= j < ns2[i].segments.len() implies i < (
                    #[trigger] ns2[i].segments[j]).1 < ns2.len() && valid_key(ns2[i].segments[j].0) by {
                    assert(valid_key(keys[0]));
                    if i != n && i < ns.len() {
                        assert(ns2[i].segments == ns[i].segments);
                    } else if i == n {
                        if j < ns[n].segments.len() {
                            assert(ns2[i].segments[j] == ns[n].segments[j]);
                        }
                    }
                }
                assert(valid_keys(keys.drop_first())) by {
                    assert forall|i: int| 0 <= i < keys.drop_first().len() implies valid_key(
                        #[trigger] keys.drop_first()[i]) by {
                        assert(keys.drop_first()[i] == keys[i + 1]);
                    }
                }
                lemma_insert_wf(ns2, m as int, keys.drop_first(), hm);
            },
        }
    }
}


// ------------------------------------------------------------------------
// Laws
// ------------------------------------------------------------------------

proof fn lemma_find_child_extend(a: Seq<(Seq<char>, usize)>, b: Seq<(Seq<char>, usize)>, key: Seq<char>)
    requires
        a.len() <= b.len(),
        forall|j: int| 0 <= j < a.len() ==> b[j] == a[j],
        find_child(a, key) is Some,
    ensures
        find_child(b, key) == find_child(a, key),
    decreases a.len(),
{
    if a[0].0 != key {
        assert forall|j: int| 0 <= j < a.drop_first().len() implies b.drop_first()[j]
            == a.drop_first()[j] by {
            assert(b[j + 1] == a[j + 1]);
        }
        lemma_find_child_extend(a.drop_first(), b.drop_first(), key);
    }
}

proof fn lemma_extends_trans(a: Seq<NodeView>, b: Seq<NodeView>, c: Seq<NodeView>)
    requires
        extends(a, b),
        extends(b, c),
    ensures
        extends(a, c),
{
    assert forall|i: int| 0 <= i < a.len() implies a[i].segments.len() <= (#[trigger] c[i]).segments.len()
        && forall|j: int| 0 <= j < a[i].segments.len() ==> c[i].segments[j] == a[i].segments[j] by {
        assert(b[i].segments.len() <= c[i].segments.len());
        assert forall|j: int| 0 <= j < a[i].segments.len() implies c[i].segments[j] == a[i].segments[j] by {
            assert(b[i].segments[j] == a[i].segments[j]);
            assert(c[i].segments[j] == b[i].segments[j]);
        }
    }
}

/// What `insert_route` does: the table only grows, the walk along the keys
/// reaches the node where the handler or middleware is recorded, and it is
/// recorded there.
pub proof fn lemma_insert_props(ns: Seq<NodeView>, n: int, keys: Seq<Seq<char>>, hm: HandlerOrMiddleware)
    requires
        wf_nodes(ns),
        0 <= n < ns.len(),
        ns.len() + keys.len() <= usize::MAX,
        valid_keys(keys),
    ensures
        ({
            let res = insert_route(ns, n, keys, hm);
            let t = insert_target(ns, n, keys);
            &&& extends(ns, res)
            &&& 0 <= t < res.len()
            &&& walk(res, n, keys) == Some(t)
            &&& match hm {
                HandlerOrMiddleware::Handler(h, mask) => res[t].endpoints.len() > 0
                    && res[t].endpoints.last() == (h, mask),
                HandlerOrMiddleware::Middleware(h) => res[t].middleware == Some(h),
            }
        }),
    decreases keys.len(),
{
    let res = insert_route(ns, n, keys, hm);
    if keys.len() == 0 {
        lemma_attach_wf(ns, n, hm);
        assert forall|i: int| 0 <= i < ns.len() implies ns[i].segments.len() <= (
        #[trigger] res[i]).segments.len() && forall|j: int|
            0 <= j < ns[i].segments.len() ==> res[i].segments[j] == ns[i].segments[j] by {
            assert(res[i].segments == ns[i].segments);
        }
    } else {
        match find_child(ns[n].segments, keys[0]) {
            Some(c) => {
                lemma_child_bounds(ns, n, keys[0]);
                assert forall|i: int| 0 <= i < keys.drop_first().len() implies valid_key(
                    #[trigger] keys.drop_first()[i]) by {
                    assert(keys.drop_first()[i] == keys[i + 1]);
                }
                lemma_insert_props(ns, c as int, keys.drop_first(), hm);
                lemma_find_child_extend(ns[n].segments, res[n].segments, keys[0]);
            },
            None => {
                let m = ns.len() as int;
                let ns2 = grow(ns, n, keys[0]);
                assert forall|i: int, j: int|
                    0 <= i < ns2.len() && 0 <= j < ns2[i].segments.len() implies i < (
                    #[trigger] ns2[i].segments[j]).1 < ns2.len() && valid_key(ns2[i].segments[j].0) by {
                    assert(valid_key(keys[0]));
                    if i != n && i < ns.len() {
                        assert(ns2[i].segments == ns[i].segments);
                    } else if i == n {
                        if j < ns[n].segments.len() {
                            assert(ns2[i].segments[j] == ns[n].segments[j]);
                        }
                    }
                }
                assert(valid_keys(keys.drop_first())) by {
                    assert forall|i: int| 0 <= i < keys.drop_first().len() implies valid_key(
                        #[trigger] keys.drop_first()[i]) by {
                        assert(keys.drop_first()[i] == keys[i + 1]);
                    }
                }
                assert(extends(ns, ns2)) by {
                    assert forall|i: int| 0 <= i < ns.len() implies ns[i].segments.len() <= (
                    #[trigger] ns2[i]).segments.len() && forall|j: int|
                        0 <= j < ns[i].segments.len() ==> ns2[i].segments[j]
                            == ns[i].segments[j] by {
                        if i == n {
                            assert forall|j: int| 0 <= j < ns[i].segments.len() implies ns2[i].segments[j]
                                == ns[i].segments[j] by {
                                assert(ns2[i].segments == ns[n].segments.push((keys[0], m as usize)));
                            }
                        }
                    }
                }
                lemma_insert_props(ns2, m, keys.drop_first(), hm);
                lemma_extends_trans(ns, ns2, res);
                lemma_find_child_push(ns[n].segments, (keys[0], m as usize), keys[0]);
                assert(ns2[n].segments == ns[n].segments.push((keys[0], m as usize)));
                lemma_find_child_extend(ns2[n].segments, res[n].segments, keys[0]);
            },
        }
    }
}

/// The path segments that fill a route: at each parameter segment the
/// value given at its position, every other segment as it is.
pub open spec fn fill_route(keys: Seq<Seq<char>>, values: Seq<Seq<char>>) -> Seq<Seq<char>> {
    Seq::new(keys.len(), |i: int| if keys[i] == param_key() { values[i] } else { keys[i] })
}

/// The values given at the parameter segments, in order.
pub open spec fn route_params(keys: Seq<Seq<char>>, values: Seq<Seq<char>>) -> Seq<Seq<char>>
    decreases keys.len(),
{
    if keys.len() == 0 {
        Seq::empty()
    } else {
        let rest = route_params(keys.drop_first(), values.drop_first());
        if keys[0] == param_key() {
            seq![values[0]] + rest
        } else {
            rest
        }
    }
}

/// Whether no child of the node reached by the first `i` keys is stored
/// under the value given at a parameter position `i`: a literal sibling
/// would be taken in place of the parameter.
pub open spec fn params_unshadowed(ns: Seq<NodeView>, n: int, keys: Seq<Seq<char>>, values: Seq<Seq<char>>) -> bool {
    forall|i: int|
        #![trigger keys[i], values[i]]
        0 <= i < keys.len() && keys[i] == param_key() ==> walk(ns, n, keys.take(i)) is Some
            && find_child(ns[walk(ns, n, keys.take(i))->0].segments, values[i]) is None
}

proof fn lemma_route_walk_params(
    ns: Seq<NodeView>,
    keys: Seq<Seq<char>>,
    values: Seq<Seq<char>>,
    n: int,
    params: Seq<Seq<char>>,
    mws: Seq<HandlerId>,
)
    requires
        wf_nodes(ns),
        0 <= n < ns.len(),
        keys.len() == values.len(),
        forall|i: int| 0 <= i < keys.len() ==> (#[trigger] fill_route(keys, values)[i]).len() > 0,
        walk(ns, n, keys) is Some,
        params_unshadowed(ns, n, keys, values),
    ensures
        route_walk(ns, fill_route(keys, values), n, params, mws) matches Some((t, ps, _)) && Some(t)
            == walk(ns, n, keys) && ps == params + route_params(keys, values),
    decreases keys.len(),
{
    let segs = fill_route(keys, values);
    if keys.len() == 0 {
        assert(params + route_params(keys, values) =~= params);
    } else {
        let c = find_child(ns[n].segments, keys[0]).unwrap();
        lemma_child_bounds(ns, n, keys[0]);
        let ks = keys.drop_first();
        let vs = values.drop_first();
        assert(fill_route(ks, vs) =~= segs.drop_first());
        assert(segs[0].len() > 0);
        assert forall|i: int| 0 <= i < ks.len() implies (#[trigger] fill_route(ks, vs)[i]).len() > 0 by {
            assert(fill_route(ks, vs)[i] == segs[i + 1]);
        }
        assert forall|i: int|
            #![trigger ks[i], vs[i]]
            0 <= i < ks.len() && ks[i] == param_key() implies walk(ns, c as int, ks.take(i)) is Some
                && find_child(ns[walk(ns, c as int, ks.take(i))->0].segments, vs[i]) is None by {
            assert(keys[i + 1] == ks[i] && values[i + 1] == vs[i]);
            assert(keys.take(i + 1).drop_first() =~= ks.take(i));
            assert(keys.take(i + 1)[0] == keys[0]);
        }
        if keys[0] == param_key() {
            assert(keys.take(0).len() == 0);
            assert(walk(ns, n, keys.take(0)) == Some(n));
            assert(keys[0] == param_key() && values[0] == values[0]);
            assert(segs[0] == values[0]);
            lemma_route_walk_params(ns, ks, vs, c as int, params.push(values[0]), mws + middleware_of(ns[c as int]));
            assert(params.push(values[0]) + route_params(ks, vs) =~= params + route_params(keys, values));
        } else {
            assert(segs[0] == keys[0]);
            lemma_route_walk_params(ns, ks, vs, c as int, params, mws + middleware_of(ns[c as int]));
        }
    }
}

/// A path segment that a request can carry as it is: not empty, and holding
/// no `/` or `?`.
pub open spec fn plain_segment(seg: Seq<char>) -> bool {
    seg.len() > 0 && crate::text::lacks(seg, '/') && crate::text::lacks(seg, '?')
}

/// The request path `/a/b/...` made of the given segments.
pub open spec fn path_of(segs: Seq<Seq<char>>) -> Seq<char> {
    seq!['/'] + crate::text::join(segs, seq!['/'])
}

/// A route has no more keys than segments.
proof fn lemma_route_keys_len(route: Seq<String>)
    ensures
        route_keys(route).len() <= route.len(),
    decreases route.len(),
{
    if route.len() > 0 {
        lemma_route_keys_len(route.drop_last());
    }
}

/// Read after write: once a route is added, a request for the path that
/// fills it (a value at each parameter segment, a segment starting with `[`
/// or keyed `%param`, and the key itself elsewhere; each a plain segment)
/// resolves to the node where the route was recorded, with the values as
/// path parameters in order, and that node holds what was added. For an
/// endpoint, every method that its mask serves finds a handler there. The
/// route `/` (no non-empty segment) is the root, reached by the path `/`. A
/// value that is the key of a literal sibling is routed to that sibling
/// instead, so such values are left out.
pub proof fn law_added_route_is_found(
    ns: Seq<NodeView>,
    route: Seq<String>,
    values: Seq<Seq<char>>,
    hm: HandlerOrMiddleware,
    bits: u16,
)
    requires
        wf_nodes(ns),
        ns.len() + route_keys(route).len() <= usize::MAX,
        values.len() == route_keys(route).len(),
        forall|i: int|
            0 <= i < values.len() ==> plain_segment(
                #[trigger] fill_route(route_keys(route), values)[i],
            ),
        params_unshadowed(insert_route(ns, 0, route_keys(route), hm), 0, route_keys(route), values),
    ensures
        ({
            let keys = route_keys(route);
            let new = insert_route(ns, 0, keys, hm);
            let path = path_of(fill_route(keys, values));
            let t = insert_target(ns, 0, keys);
            &&& route_spec(new, path) matches Some((r, ps, _)) && r == t && ps == route_params(keys, values)
            &&& match hm {
                HandlerOrMiddleware::Handler(h, mask) => new[t].endpoints.last() == (h, mask)
                    && (serves(bits, mask) ==> handler_spec(new, path, bits) is Some),
                HandlerOrMiddleware::Middleware(h) => new[t].middleware == Some(h),
            }
        }),
{
    let keys = route_keys(route);
    let segs = fill_route(keys, values);
    let new = insert_route(ns, 0, keys, hm);
    let t = insert_target(ns, 0, keys);
    lemma_route_keys_len(route);
    lemma_route_keys_valid(route);
    lemma_insert_props(ns, 0, keys, hm);
    lemma_insert_wf(ns, 0, keys, hm);
    let j = crate::text::join(segs, seq!['/']);
    let path = path_of(segs);
    assert(path.drop_first() =~= j);
    if keys.len() == 0 {
        assert(segs =~= Seq::<Seq<char>>::empty());
        assert(j =~= Seq::<char>::empty());
        crate::text::lemma_split_single(j, '?');
        crate::text::lemma_split_single(j, '/');
        assert(path_segments(path) == seq![Seq::<char>::empty()]);
        assert(path_segments(path).drop_first() =~= Seq::<Seq<char>>::empty());
        assert(route_params(keys, values) =~= Seq::<Seq<char>>::empty());
    } else {
        assert forall|i: int| 0 <= i < segs.len() implies crate::text::lacks(#[trigger] segs[i], '/')
            && crate::text::lacks(segs[i], '?') && segs[i].len() > 0 by {
            assert(plain_segment(fill_route(route_keys(route), values)[i]));
        }
        crate::text::lemma_join_lacks(segs, seq!['/'], '?');
        crate::text::lemma_split_single(j, '?');
        crate::text::lemma_split_join(segs, '/');
        assert(path_segments(path) == segs);
        lemma_route_walk_params(new, keys, values, 0, Seq::empty(), middleware_of(new[0]));
        assert(Seq::<Seq<char>>::empty() + route_params(keys, values) =~= route_params(keys, values));
    }
    match hm {
        HandlerOrMiddleware::Handler(h, mask) => {
            if serves(bits, mask) {
                lemma_method_some(new[t].endpoints, bits);
            }
        },
        HandlerOrMiddleware::Middleware(h) => {},
    }
}

/// The segments that start with `[`, in order.
pub open spec fn bracket_segments(segs: Seq<Seq<char>>) -> Seq<Seq<char>>
    decreases segs.len(),
{
    if segs.len() == 0 {
        Seq::empty()
    } else {
        let rest = bracket_segments(segs.drop_first());
        if segs[0].len() > 0 && segs[0][0] == '[' {
            seq![segs[0]] + rest
        } else {
            rest
        }
    }
}

/// A route segment that a request can carry as written: plain, and not
/// starting with `%` (the prefix of the reserved keys).
pub open spec fn literal_segment(seg: Seq<char>) -> bool {
    plain_segment(seg) && seg[0] != '%'
}

/// A route with no empty segment has one key per segment.
proof fn lemma_route_keys_each(route: Seq<String>)
    requires
        forall|i: int| 0 <= i < route.len() ==> (#[trigger] route[i])@.len() > 0,
    ensures
        route_keys(route).len() == route.len(),
        forall|i: int| 0 <= i < route.len() ==> #[trigger] route_keys(route)[i] == route_key(route[i]@),
    decreases route.len(),
{
    if route.len() > 0 {
        let init = route.drop_last();
        assert forall|i: int| 0 <= i < init.len() implies (#[trigger] init[i])@.len() > 0 by {
            assert(init[i] == route[i]);
        }
        lemma_route_keys_each(init);
        assert(route.last() == route[route.len() - 1]);
        assert forall|i: int| 0 <= i < route.len() implies #[trigger] route_keys(route)[i] == route_key(
            route[i]@,
        ) by {
            if i < route.len() - 1 {
                assert(route_keys(init)[i] == route_key(init[i]@));
                assert(init[i] == route[i]);
            }
        }
    }
}

/// A walk that reaches a node passes through every prefix of its keys, and
/// stays in the table.
proof fn lemma_walk_prefix(ns: Seq<NodeView>, n: int, keys: Seq<Seq<char>>, i: int)
    requires
        wf_nodes(ns),
        0 <= n < ns.len(),
        0 <= i <= keys.len(),
        walk(ns, n, keys) is Some,
    ensures
        walk(ns, n, keys.take(i)) matches Some(w) && 0 <= w < ns.len(),
    decreases keys.len(),
{
    if i > 0 {
        let c = find_child(ns[n].segments, keys[0]).unwrap();
        lemma_child_bounds(ns, n, keys[0]);
        assert(keys.take(i)[0] == keys[0]);
        assert(keys.take(i).drop_first() =~= keys.drop_first().take(i - 1));
        lemma_walk_prefix(ns, c as int, keys.drop_first(), i - 1);
    } else {
        assert(keys.take(0).len() == 0);
    }
}

/// With each key the parameter key exactly where the value starts with `[`,
/// the parameters are the values that start with `[`.
proof fn lemma_route_params_brackets(keys: Seq<Seq<char>>, values: Seq<Seq<char>>)
    requires
        keys.len() == values.len(),
        forall|i: int|
            0 <= i < keys.len() ==> (#[trigger] keys[i] == param_key()) == (values[i].len() > 0
                && values[i][0] == '['),
    ensures
        route_params(keys, values) == bracket_segments(values),
    decreases keys.len(),
{
    if keys.len() > 0 {
        let ks = keys.drop_first();
        let vs = values.drop_first();
        assert forall|i: int| 0 <= i < ks.len() implies (#[trigger] ks[i] == param_key()) == (
        vs[i].len() > 0 && vs[i][0] == '[') by {
            assert(ks[i] == keys[i + 1] && vs[i] == values[i + 1]);
        }
        lemma_route_params_brackets(ks, vs);
        assert((keys[0] == param_key()) == (values[0].len() > 0 && values[0][0] == '['));
    }
}

/// Read after write, on the route's own text: once a route whose segments
/// are all literal is added, a request for the path written with those
/// segments resolves to the node where the route was recorded, its path
/// parameters are the segments written `[...]`, in order, and that node
/// holds what was added. For an endpoint, every method that its mask serves
/// finds a handler there.
pub proof fn law_route_text_is_found(
    ns: Seq<NodeView>,
    route: Seq<String>,
    hm: HandlerOrMiddleware,
    bits: u16,
)
    requires
        wf_nodes(ns),
        ns.len() + route.len() <= usize::MAX,
        forall|i: int| 0 <= i < route.len() ==> literal_segment((#[trigger] route[i])@),
    ensures
        ({
            let keys = route_keys(route);
            let new = insert_route(ns, 0, keys, hm);
            let segs = crate::text::string_views(route);
            let path = path_of(segs);
            let t = insert_target(ns, 0, keys);
            &&& route_spec(new, path) matches Some((r, ps, _)) && r == t && ps == bracket_segments(segs)
            &&& match hm {
                HandlerOrMiddleware::Handler(h, mask) => new[t].endpoints.last() == (h, mask)
                    && (serves(bits, mask) ==> handler_spec(new, path, bits) is Some),
                HandlerOrMiddleware::Middleware(h) => new[t].middleware == Some(h),
            }
        }),
{
    let keys = route_keys(route);
    let values = crate::text::string_views(route);
    let new = insert_route(ns, 0, keys, hm);
    assert forall|i: int| 0 <= i < route.len() implies (#[trigger] route[i])@.len() > 0 by {
        assert(literal_segment(route[i]@));
    }
    lemma_route_keys_each(route);
    lemma_route_keys_valid(route);
    lemma_insert_props(ns, 0, keys, hm);
    lemma_insert_wf(ns, 0, keys, hm);
    assert forall|i: int| 0 <= i < keys.len() implies (#[trigger] keys[i] == param_key()) == (
    values[i].len() > 0 && values[i][0] == '[') by {
        assert(values[i] == route[i]@);
        assert(literal_segment(route[i]@));
        assert(keys[i] == route_key(route[i]@));
        if values[i][0] != '[' {
            assert(keys[i] == values[i]);
            assert(param_key()[0] == '%');
        }
    }
    assert(fill_route(keys, values) =~= values) by {
        assert forall|i: int| 0 <= i < keys.len() implies #[trigger] fill_route(keys, values)[i]
            == values[i] by {
            assert(keys[i] == route_key(route[i]@));
            assert(values[i] == route[i]@);
        }
    }
    assert forall|i: int| 0 <= i < values.len() implies plain_segment(
        #[trigger] fill_route(keys, values)[i],
    ) by {
        assert(values[i] == route[i]@);
        assert(literal_segment(route[i]@));
    }
    assert forall|i: int|
        #![trigger keys[i], values[i]]
        0 <= i < keys.len() && keys[i] == param_key() implies walk(new, 0, keys.take(i)) is Some
            && find_child(new[walk(new, 0, keys.take(i))->0].segments, values[i]) is None by {
        lemma_walk_prefix(new, 0, keys, i);
        let w = walk(new, 0, keys.take(i))->0;
        lemma_find_child_in(new[w].segments, values[i]);
        if let Some(c) = find_child(new[w].segments, values[i]) {
            let jj = choose|jj: int|
                0 <= jj < new[w].segments.len() && #[trigger] new[w].segments[jj] == (values[i], c);
            assert(valid_key(new[w].segments[jj].0));
        }
    }
    lemma_route_params_brackets(keys, values);
    law_added_route_is_found(ns, route, values, hm, bits);
}

/// The segments that are not empty, in order.
pub open spec fn non_empty(segs: Seq<Seq<char>>) -> Seq<Seq<char>>
    decreases segs.len(),
{
    if segs.len() == 0 {
        Seq::empty()
    } else if segs[0].len() == 0 {
        non_empty(segs.drop_first())
    } else {
        seq![segs[0]] + non_empty(segs.drop_first())
    }
}

/// Routing skips empty segments: it goes the same way along the non-empty
/// ones alone.
proof fn lemma_route_walk_non_empty(
    ns: Seq<NodeView>,
    segs: Seq<Seq<char>>,
    cur: int,
    params: Seq<Seq<char>>,
    mws: Seq<HandlerId>,
)
    ensures
        route_walk(ns, segs, cur, params, mws) == route_walk(ns, non_empty(segs), cur, params, mws),
    decreases segs.len(),
{
    if segs.len() > 0 {
        let rest = segs.drop_first();
        if segs[0].len() == 0 {
            lemma_route_walk_non_empty(ns, rest, cur, params, mws);
        } else {
            let ne = non_empty(segs);
            assert(ne[0] == segs[0]);
            assert(ne.drop_first() =~= non_empty(rest));
            let seg = segs[0];
            match find_child(ns[cur].segments, seg) {
                Some(c) => {
                    lemma_route_walk_non_empty(ns, rest, c as int, params, mws + middleware_of(ns[c as int]));
                },
                None => match find_child(ns[cur].segments, param_key()) {
                    Some(c) => {
                        lemma_route_walk_non_empty(
                            ns,
                            rest,
                            c as int,
                            params.push(seg),
                            mws + middleware_of(ns[c as int]),
                        );
                    },
                    None => match find_child(ns[0].segments, fallback_key()) {
                        Some(c) => {
                            lemma_route_walk_non_empty(
                                ns,
                                rest,
                                c as int,
                                params,
                                mws + middleware_of(ns[c as int]),
                            );
                        },
                        None => {},
                    },
                },
            }
        }
    }
}

/// Two paths whose parts before the query have the same non-empty segments
/// (such as `/a/b`, `a//b/` and `/a/b?x=/c`) route alike: to the same node,
/// with the same path parameters and middlewares, or both nowhere.
pub proof fn law_same_segments_route_alike(ns: Seq<NodeView>, p: Seq<char>, q: Seq<char>)
    requires
        non_empty(path_segments(p)) == non_empty(path_segments(q)),
    ensures
        route_spec(ns, p) == route_spec(ns, q),
{
    lemma_route_walk_non_empty(ns, path_segments(p), 0, Seq::empty(), middleware_of(ns[0]));
    lemma_route_walk_non_empty(ns, path_segments(q), 0, Seq::empty(), middleware_of(ns[0]));
}

/// Literal children come first and parameters second: a non-empty segment
/// that is the key of a child of the current node continues the walk there
/// and records no parameter, even when the node has a parameter child; one
/// that is no such key continues at the parameter child, if there is one,
/// and is recorded as the last path parameter.
pub proof fn law_literal_before_parameter(
    ns: Seq<NodeView>,
    segs: Seq<Seq<char>>,
    cur: int,
    params: Seq<Seq<char>>,
    mws: Seq<HandlerId>,
)
    requires
        segs.len() > 0,
        segs[0].len() > 0,
    ensures
        find_child(ns[cur].segments, segs[0]) matches Some(c) ==> route_walk(ns, segs, cur, params, mws)
            == route_walk(ns, segs.drop_first(), c as int, params, mws + middleware_of(ns[c as int])),
        find_child(ns[cur].segments, segs[0]) is None ==> (find_child(ns[cur].segments, param_key())
            matches Some(c) ==> route_walk(ns, segs, cur, params, mws) == route_walk(
            ns,
            segs.drop_first(),
            c as int,
            params.push(segs[0]),
            mws + middleware_of(ns[c as int]),
        )),
{
}

/// The fallback belongs to the root: wherever the walk is, a non-empty
/// segment that matches neither a literal child nor a parameter child of the
/// current node continues the walk at the root's `%404` child, adding that
/// child's middleware and no parameter; without such a child at the root the
/// path leads nowhere, whatever fallback the current node has.
pub proof fn law_fallback_is_the_roots(
    ns: Seq<NodeView>,
    segs: Seq<Seq<char>>,
    cur: int,
    params: Seq<Seq<char>>,
    mws: Seq<HandlerId>,
)
    requires
        segs.len() > 0,
        segs[0].len() > 0,
        find_child(ns[cur].segments, segs[0]) is None,
        find_child(ns[cur].segments, param_key()) is None,
    ensures
        find_child(ns[0].segments, fallback_key()) matches Some(c) ==> route_walk(
            ns,
            segs,
            cur,
            params,
            mws,
        ) == route_walk(ns, segs.drop_first(), c as int, params, mws + middleware_of(ns[c as int])),
        find_child(ns[0].segments, fallback_key()) is None ==> route_walk(ns, segs, cur, params, mws)
            is None,
{
}

/// Some endpoint is found when the last one serves the method.
proof fn lemma_method_some(eps: Seq<(HandlerId, u16)>, bits: u16)
    requires
        eps.len() > 0,
        serves(bits, eps.last().1),
    ensures
        method_spec(eps, bits) is Some,
    decreases eps.len(),
{
    if eps.len() > 1 && !serves(bits, eps[0].1) {
        assert(eps.drop_first().last() == eps.last());
        lemma_method_some(eps.drop_first(), bits);
    }
}


// ------------------------------------------------------------------------
// Text form
// ------------------------------------------------------------------------

/// Each line of `text` prefixed with two spaces and ended with `\n`.
pub open spec fn indent_block(text: Seq<char>) -> Seq<char> {
    concat(lines(text).map_values(|l: Seq<char>| seq![' ', ' '] + l + seq!['\n']))
}

/// How a child key is shown: `/key`, with `/%` shown as `%`.
pub open spec fn key_label(key: Seq<char>) -> Seq<char> {
    replace(seq!['/'] + key, seq!['/', '%'], seq!['%'])
}

/// The block of a child: `label: <child router>` indented by two spaces.
pub open spec fn child_block(key: Seq<char>, sub: Seq<char>) -> Seq<char> {
    indent_block(key_label(key) + seq![':', ' '] + sub + seq!['\n'])
}

/// The union of the method masks of the endpoints.
pub open spec fn or_masks(eps: Seq<(HandlerId, u16)>) -> u16
    decreases eps.len(),
{
    if eps.len() == 0 {
        0
    } else {
        or_masks(eps.drop_last()) | eps.last().1
    }
}

/// `  NAME\n` when the method's bit is in `value`.
pub open spec fn method_line(value: u16, m: HttpMethod) -> Seq<char> {
    if (m.spec_bits() & value) > 0 {
        seq![' ', ' '] + m.spec_name() + seq!['\n']
    } else {
        Seq::empty()
    }
}

/// One line for each method from GET to TRACE whose bit is in `value`.
pub open spec fn method_lines(value: u16) -> Seq<char> {
    method_line(value, HttpMethod::GET) + method_line(value, HttpMethod::PUT) + method_line(
        value,
        HttpMethod::POST,
    ) + method_line(value, HttpMethod::DELETE) + method_line(value, HttpMethod::PATCH)
        + method_line(value, HttpMethod::HEAD) + method_line(value, HttpMethod::OPTIONS)
        + method_line(value, HttpMethod::TRACE)
}

pub open spec fn middleware_line(node: NodeView) -> Seq<char> {
    match node.middleware {
        Some(_) => "  Middleware: Yes\n"@,
        None => "  Middleware: No\n"@,
    }
}

/// The text form of node `n`: its children's blocks, its methods and
/// whether it has a middleware, between `Router {` and `}`.
pub open spec fn describe(ns: Seq<NodeView>, n: int) -> Seq<char>
    decreases ns.len() - n, ns[n].segments.len() + 1,
{
    if 0 <= n < ns.len() {
        "Router {\n"@ + children_text(ns, n, 0) + method_lines(or_masks(ns[n].endpoints))
            + middleware_line(ns[n]) + "}"@
    } else {
        Seq::empty()
    }
}

/// The blocks of the children of node `n` from the `i`-th on.
pub open spec fn children_text(ns: Seq<NodeView>, n: int, i: int) -> Seq<char>
    decreases ns.len() - n, ns[n].segments.len() - i,
{
    if 0 <= n < ns.len() && 0 <= i < ns[n].segments.len() {
        let (k, c) = ns[n].segments[i];
        (if n < c < ns.len() {
            child_block(k, describe(ns, c as int))
        } else {
            Seq::empty()
        }) + children_text(ns, n, i + 1)
    } else {
        Seq::empty()
    }
}

fn indent_block_of(text: &Vec<char>) -> (r: Vec<char>)
    ensures
        r@ == indent_block(text@),
{
    let ls = lines_of(text);
    let ghost mapped = lines(text@).map_values(|l: Seq<char>| seq![' ', ' '] + l + seq!['\n']);
    let mut r: Vec<char> = Vec::new();
    let mut i: usize = 0;
    assert(mapped.take(0) =~= Seq::<Seq<char>>::empty());
    while i < ls.len()
        invariant
            views(ls@) == lines(text@),
            mapped == lines(text@).map_values(|l: Seq<char>| seq![' ', ' '] + l + seq!['\n']),
            i <= ls@.len(),
            r@ == concat(mapped.take(i as int)),
        decreases ls@.len() - i,
    {
        let ghost before = r@;
        r.push(' ');
        r.push(' ');
        push_all(&mut r, &ls[i]);
        r.push('\n');
        proof {
            assert(mapped.take(i + 1).drop_last() =~= mapped.take(i as int));
            assert(views(ls@)[i as int] == ls@[i as int]@);
            assert(r@ =~= before + (seq![' ', ' '] + ls@[i as int]@ + seq!['\n']));
        }
        i = i + 1;
    }
    assert(mapped.take(ls@.len() as int) =~= mapped);
    r
}

fn child_block_of(key: &Vec<char>, sub: &Vec<char>) -> (r: Vec<char>)
    ensures
        r@ == child_block(key@, sub@),
{
    let mut text: Vec<char> = vec!['/'];
    push_all(&mut text, key);
    let from = vec!['/', '%'];
    let to = vec!['%'];
    let mut line = replace_all(&text, &from, &to);
    proof {
        assert(from@ =~= seq!['/', '%']);
        assert(to@ =~= seq!['%']);
        assert(text@ =~= seq!['/'] + key@);
    }
    line.push(':');
    line.push(' ');
    push_all(&mut line, sub);
    line.push('\n');
    assert(line@ =~= key_label(key@) + seq![':', ' '] + sub@ + seq!['\n']);
    indent_block_of(&line)
}

fn method_line_of(out: &mut Vec<char>, value: u16, m: HttpMethod)
    ensures
        final(out)@ == old(out)@ + method_line(value, m),
{
    if (m.bits() & value) > 0 {
        out.push(' ');
        out.push(' ');
        push_str(out, m.name());
        out.push('\n');
        assert(out@ =~= old(out)@ + method_line(value, m));
    } else {
        assert(out@ =~= old(out)@ + method_line(value, m));
    }
}

fn or_masks_of(node: &RouteNode) -> (v: u16)
    ensures
        v == or_masks(node@.endpoints),
{
    let ghost eps = node@.endpoints;
    let mut v: u16 = 0;
    let mut i: usize = 0;
    assert(eps.take(0) =~= Seq::<(HandlerId, u16)>::empty());
    while i < node.endpoints.len()
        invariant
            eps == node@.endpoints,
            i <= eps.len(),
            v == or_masks(eps.take(i as int)),
        decreases eps.len() - i,
    {
        v = v | node.endpoints[i].1;
        assert(eps.take(i + 1).drop_last() =~= eps.take(i as int));
        i = i + 1;
    }
    assert(eps.take(eps.len() as int) =~= eps);
    v
}

// ------------------------------------------------------------------------
// Router
// ------------------------------------------------------------------------

fn param_key_vec() -> (v: Vec<char>)
    ensures
        v@ == param_key(),
{
    vec!['%', 'p', 'a', 'r', 'a', 'm']
}

fn fallback_key_vec() -> (v: Vec<char>)
    ensures
        v@ == fallback_key(),
{
    vec!['%', '4', '0', '4']
}

fn new_node() -> (n: RouteNode)
    ensures
        n@ == empty_node(),
{
    let n = RouteNode { segments: Vec::new(), endpoints: Vec::new(), middleware: None };
    assert(n@.segments =~= Seq::<(Seq<char>, usize)>::empty());
    assert(n@.endpoints =~= Seq::<(HandlerId, u16)>::empty());
    n
}

fn route_key_of(seg: &String) -> (k: Vec<char>)
    ensures
        k@ == route_key(seg@),
{
    let v = chars_of(seg.as_str());
    if v.len() > 0 && v[0] == '[' {
        param_key_vec()
    } else {
        v
    }
}

/// The keys of a route's non-empty segments, in order.
fn route_keys_of(route: &Vec<String>) -> (r: Vec<Vec<char>>)
    ensures
        views(r@) == route_keys(route@),
{
    let mut out: Vec<Vec<char>> = Vec::new();
    let mut i: usize = 0;
    while i < route.len()
        invariant
            i <= route@.len(),
            views(out@) == route_keys(route@.take(i as int)),
        decreases route@.len() - i,
    {
        let ghost pre = route@.take(i as int);
        assert(route@.take(i + 1).drop_last() =~= pre);
        assert(route@.take(i + 1).last() == route@[i as int]);
        let seg_chars = chars_of(route[i].as_str());
        if seg_chars.len() > 0 {
            let k = route_key_of(&route[i]);
            out.push(k);
            assert(views(out@) =~= route_keys(pre).push(route_key(route@[i as int]@)));
        }
        i = i + 1;
    }
    assert(route@.take(route@.len() as int) =~= route@);
    out
}

fn child_of(node: &RouteNode, key: &Vec<char>) -> (c: Option<usize>)
    ensures
        c == find_child(node@.segments, key@),
{
    let ghost segs = node@.segments;
    assert(segs.skip(0) =~= segs);
    let mut i: usize = 0;
    while i < node.segments.len()
        invariant
            i <= node.segments@.len(),
            segs == node@.segments,
            segs.len() == node.segments@.len(),
            find_child(segs, key@) == find_child(segs.skip(i as int), key@),
        decreases node.segments@.len() - i,
    {
        assert(segs.skip(i as int)[0] == segs[i as int]);
        if chars_eq(&node.segments[i].0, key) {
            return Some(node.segments[i].1);
        }
        assert(segs.skip(i as int).drop_first() =~= segs.skip(i + 1));
        i = i + 1;
    }
    None
}

fn first_serving(node: &RouteNode, bits: u16) -> (h: Option<HandlerId>)
    ensures
        h == method_spec(node@.endpoints, bits),
{
    let ghost eps = node@.endpoints;
    assert(eps.skip(0) =~= eps);
    let mut i: usize = 0;
    while i < node.endpoints.len()
        invariant
            i <= node.endpoints@.len(),
            eps == node@.endpoints,
            method_spec(eps, bits) == method_spec(eps.skip(i as int), bits),
        decreases node.endpoints@.len() - i,
    {
        let (h, mask) = node.endpoints[i];
        assert(eps.skip(i as int)[0] == (h, mask));
        if (bits & mask) > 0 || mask == 0xffffu16 {
            return Some(h);
        }
        assert(eps.skip(i as int).drop_first() =~= eps.skip(i + 1));
        i = i + 1;
    }
    None
}

fn push_child(nodes: &mut Vec<RouteNode>, n: usize, key: Vec<char>, child: usize)
    requires
        n < old(nodes)@.len(),
    ensures
        nodes_view(final(nodes)@) == nodes_view(old(nodes)@).update(
            n as int,
            NodeView {
                segments: nodes_view(old(nodes)@)[n as int].segments.push((key@, child)),
                ..nodes_view(old(nodes)@)[n as int]
            },
        ),
{
    let ghost ov = nodes_view(nodes@);
    let mut node = nodes.remove(n);
    let ghost nv = node@;
    node.segments.push((key, child));
    assert(node@.segments =~= nv.segments.push((key@, child)));
    nodes.insert(n, node);
    assert(nodes_view(nodes@) =~= ov.update(
        n as int,
        NodeView { segments: ov[n as int].segments.push((key@, child)), ..ov[n as int] },
    ));
}

fn attach_at(nodes: &mut Vec<RouteNode>, n: usize, hm: HandlerOrMiddleware)
    requires
        wf_nodes(nodes_view(old(nodes)@)),
        n < old(nodes)@.len(),
    ensures
        wf_nodes(nodes_view(final(nodes)@)),
        nodes_view(final(nodes)@) == attach(nodes_view(old(nodes)@), n as int, hm),
{
    let ghost ov = nodes_view(nodes@);
    let mut node = nodes.remove(n);
    match hm {
        HandlerOrMiddleware::Handler(h, mask) => {
            node.endpoints.push((h, mask));
        },
        HandlerOrMiddleware::Middleware(h) => {
            node.middleware = Some(h);
        },
    }
    nodes.insert(n, node);
    assert(nodes_view(nodes@) =~= attach(ov, n as int, hm));
    proof {
        lemma_attach_wf(ov, n as int, hm);
    }
}

impl Router {
    /// Whether the table is a well formed trie; every router is.
    pub open spec fn wf(&self) -> bool {
        wf_nodes(self@)
    }

    #[verifier::type_invariant]
    closed spec fn table_wf(self) -> bool {
        wf_nodes(nodes_view(self.nodes@))
    }

    /// A router with no routes.
    pub fn empty() -> (r: Router)
        ensures
            r.wf(),
            r@ == seq![empty_node()],
    {
        let root = new_node();
        let mut nodes: Vec<RouteNode> = Vec::new();
        nodes.push(root);
        let r = Router { nodes };
        assert(r@ =~= seq![empty_node()]);
        r
    }

    /// A router holding the given routes, added in order.
    pub fn new(route_slices: &[RouteSlice]) -> (r: Router)
        ensures
            r.wf(),
            r@ == new_spec(route_slices@),
    {
        let mut r = Router::empty();
        let mut i: usize = 0;
        assert(route_slices@.take(0) =~= Seq::<RouteSlice>::empty());
        while i < route_slices.len()
            invariant
                i <= route_slices@.len(),
                r.wf(),
                r@ == new_spec(route_slices@.take(i as int)),
            decreases route_slices@.len() - i,
        {
            r.add_route(&route_slices[i]);
            assert(route_slices@.take(i + 1).drop_last() =~= route_slices@.take(i as int));
            i = i + 1;
        }
        assert(route_slices@.take(route_slices@.len() as int) =~= route_slices@);
        r
    }

    /// Adds a route: walks its segments from the root, creating the missing
    /// nodes (a segment starting with `[` is stored as the parameter key),
    /// and records the endpoint or middleware at the node reached.
    pub fn add_route(&mut self, slice: &RouteSlice)
        ensures
            final(self).wf(),
            final(self)@ == insert_route(old(self)@, 0, route_keys(slice.0@), slice.1),
    {
        proof {
            use_type_invariant(&*self);
        }
        let mut nodes: Vec<RouteNode> = Vec::new();
        nodes.push(new_node());
        proof {
            assert(nodes_view(nodes@) =~= seq![empty_node()]);
        }
        std::mem::swap(&mut nodes, &mut self.nodes);
        let ghost keys = route_keys(slice.0@);
        let ghost target = insert_route(nodes_view(nodes@), 0, keys, slice.1);
        let key_list = route_keys_of(&slice.0);
        proof {
            lemma_route_keys_valid(slice.0@);
        }
        let mut cur: usize = 0;
        let mut i: usize = 0;
        assert(keys.skip(0) =~= keys);
        while i < key_list.len()
            invariant
                i <= key_list@.len(),
                keys == views(key_list@),
                keys.len() == key_list@.len(),
                valid_keys(keys),
                wf_nodes(nodes_view(nodes@)),
                0 <= cur < nodes@.len(),
                insert_route(nodes_view(nodes@), cur as int, keys.skip(i as int), slice.1) == target,
            decreases key_list@.len() - i,
        {
            let key = key_list[i].clone();
            assert(key@ == keys[i as int]);
            assert(valid_key(key@));
            assert(keys.skip(i as int)[0] == key@);
            assert(keys.skip(i as int).drop_first() =~= keys.skip(i + 1));
            let found = child_of(&nodes[cur], &key);
            match found {
                Some(c) => {
                    proof {
                        lemma_child_bounds(nodes_view(nodes@), cur as int, key@);
                    }
                    cur = c;
                },
                None => {
                    let m = nodes.len();
                    let ghost before = nodes_view(nodes@);
                    let ghost ns2 = grow(before, cur as int, key@);
                    push_child(&mut nodes, cur, key, m);
                    let fresh = new_node();
                    nodes.push(fresh);
                    assert(nodes_view(nodes@) =~= ns2);
                    proof {
                        assert forall|a: int, b: int|
                            0 <= a < ns2.len() && 0 <= b < ns2[a].segments.len() implies a < (
                            #[trigger] ns2[a].segments[b]).1 < ns2.len() && valid_key(
                                ns2[a].segments[b].0) by {
                            if a != cur && a < before.len() {
                                assert(ns2[a].segments == before[a].segments);
                            } else if a == cur {
                                if b < before[cur as int].segments.len() {
                                    assert(ns2[a].segments[b] == before[cur as int].segments[b]);
                                }
                            }
                        }
                    }
                    cur = m;
                },
            }
            i = i + 1;
        }
        assert(keys.skip(i as int) =~= Seq::<Seq<char>>::empty());
        attach_at(&mut nodes, cur, slice.1);
        self.nodes = nodes;
    }

    /// Resolves a path to the node it leads to, the path parameters, and the
    /// middlewares of the nodes on the way.
    pub fn route(&self, path: &str) -> (r: Option<(usize, Vec<String>, Vec<HandlerId>)>)
        ensures
            r matches Some((n, params, mws)) ==> route_spec(self@, path@) == Some(
                (n as int, params@.map_values(|s: String| s@), mws@),
            ) && n < self@.len(),
            r is None ==> route_spec(self@, path@) is None,
    {
        proof {
            use_type_invariant(self);
        }
        let ghost ns = self@;
        let chars = chars_of(path);
        let stripped = if chars.len() > 0 && chars[0] == '/' {
            crate::text::slice_chars(&chars, 1, chars.len())
        } else {
            chars
        };
        assert(stripped@ == (if path@.len() > 0 && path@[0] == '/' {
            path@.drop_first()
        } else {
            path@
        }));
        let q = vec!['?'];
        assert(q@ =~= seq!['?']);
        let pieces = split_by(&stripped, &q);
        proof {
            crate::text::lemma_split_pat_nonempty(stripped@, q@);
        }
        assert(pieces@[0]@ == views(pieces@)[0]);
        let slash = vec!['/'];
        assert(slash@ =~= seq!['/']);
        let segs = split_by(&pieces[0], &slash);
        let ghost all = views(segs@);
        assert(all == path_segments(path@));
        let mut params: Vec<String> = Vec::new();
        let mut mws: Vec<HandlerId> = Vec::new();
        match self.nodes[0].middleware {
            Some(h) => mws.push(h),
            None => {},
        }
        assert(mws@ =~= middleware_of(ns[0]));
        let param = param_key_vec();
        let fallback = fallback_key_vec();
        let mut cur: usize = 0;
        let mut i: usize = 0;
        assert(all.skip(0) =~= all);
        assert(params@.map_values(|s: String| s@) =~= Seq::<Seq<char>>::empty());
        while i < segs.len()
            invariant
                ns == self@,
                self.wf(),
                all == views(segs@),
                i <= segs@.len(),
                cur < ns.len(),
                param@ == param_key(),
                fallback@ == fallback_key(),
                route_spec(ns, path@) == route_walk(
                    ns,
                    all.skip(i as int),
                    cur as int,
                    params@.map_values(|s: String| s@),
                    mws@,
                ),
            decreases segs@.len() - i,
        {
            let seg = &segs[i];
            let ghost ps = params@.map_values(|s: String| s@);
            assert(all.skip(i as int)[0] == seg@);
            assert(all.skip(i as int).drop_first() =~= all.skip(i + 1));
            if seg.len() == 0 {
                i = i + 1;
                continue;
            }
            let node = &self.nodes[cur];
            let next = match child_of(node, seg) {
                Some(c) => Some(c),
                None => match child_of(node, &param) {
                    Some(c) => {
                        let s = string_of(seg);
                        params.push(s);
                        assert(params@.map_values(|s: String| s@) =~= ps.push(seg@));
                        Some(c)
                    },
                    None => child_of(&self.nodes[0], &fallback),
                },
            };
            match next {
                None => {
                    return None;
                },
                Some(c) => {
                    proof {
                        lemma_child_bounds(ns, cur as int, seg@);
                        lemma_child_bounds(ns, cur as int, param_key());
                        lemma_child_bounds(ns, 0, fallback_key());
                    }
                    let ghost before = mws@;
                    match self.nodes[c].middleware {
                        Some(h) => mws.push(h),
                        None => {},
                    }
                    assert(mws@ =~= before + middleware_of(ns[c as int]));
                    cur = c;
                },
            }
            i = i + 1;
        }
        assert(all.skip(i as int) =~= Seq::<Seq<char>>::empty());
        Some((cur, params, mws))
    }

    /// The text form of the router: what its `Display` and `Debug` write.
    /// Children are listed in the order they were added.
    pub fn to_string(&self) -> (s: String)
        ensures
            s@ == describe(self@, 0),
    {
        proof {
            use_type_invariant(self);
        }
        let v = self.describe_node(0);
        string_of(&v)
    }

    fn describe_node(&self, n: usize) -> (r: Vec<char>)
        requires
            self.wf(),
            n < self@.len(),
        ensures
            r@ == describe(self@, n as int),
        decreases self@.len() - n,
    {
        let ghost ns = self@;
        let node = &self.nodes[n];
        let mut kids: Vec<char> = Vec::new();
        let mut i: usize = 0;
        while i < node.segments.len()
            invariant
                ns == self@,
                self.wf(),
                n < ns.len(),
                node == &self.nodes@[n as int],
                i <= node.segments@.len(),
                ns[n as int].segments.len() == node.segments@.len(),
                kids@ + children_text(ns, n as int, i as int) == children_text(ns, n as int, 0),
            decreases node.segments@.len() - i,
        {
            let c = node.segments[i].1;
            assert(ns[n as int].segments[i as int] == (node.segments@[i as int].0@, c));
            let sub = self.describe_node(c);
            let block = child_block_of(&node.segments[i].0, &sub);
            let ghost before = kids@;
            push_all(&mut kids, &block);
            proof {
                assert(children_text(ns, n as int, i as int) == child_block(
                    node.segments@[i as int].0@,
                    describe(ns, c as int),
                ) + children_text(ns, n as int, i + 1));
                assert(kids@ + children_text(ns, n as int, i + 1) =~= before + children_text(
                    ns,
                    n as int,
                    i as int,
                ));
            }
            i = i + 1;
        }
        assert(kids@ =~= children_text(ns, n as int, 0));
        finish_describe(node, &kids)
    }
}

fn method_lines_of(value: u16) -> (r: Vec<char>)
    ensures
        r@ == method_lines(value),
{
    let mut r: Vec<char> = Vec::new();
    method_line_of(&mut r, value, HttpMethod::GET);
    method_line_of(&mut r, value, HttpMethod::PUT);
    method_line_of(&mut r, value, HttpMethod::POST);
    method_line_of(&mut r, value, HttpMethod::DELETE);
    method_line_of(&mut r, value, HttpMethod::PATCH);
    method_line_of(&mut r, value, HttpMethod::HEAD);
    method_line_of(&mut r, value, HttpMethod::OPTIONS);
    method_line_of(&mut r, value, HttpMethod::TRACE);
    assert(r@ =~= method_lines(value));
    r
}

fn finish_describe(node: &RouteNode, kids: &Vec<char>) -> (r: Vec<char>)
    ensures
        r@ == "Router {\n"@ + kids@ + method_lines(or_masks(node@.endpoints)) + middleware_line(node@)
            + "}"@,
{
    let mut r = chars_of("Router {\n");
    push_all(&mut r, &kids);
    let value = or_masks_of(node);
    let ms = method_lines_of(value);
    push_all(&mut r, &ms);
    match node.middleware {
        Some(_) => push_str(&mut r, "  Middleware: Yes\n"),
        None => push_str(&mut r, "  Middleware: No\n"),
    }
    push_str(&mut r, "}");
    assert(r@ =~= "Router {\n"@ + kids@ + method_lines(or_masks(node@.endpoints))
        + middleware_line(node@) + "}"@);
    r
}

impl Router {
    /// The handlers to run for a request: the middlewares on the path, then
    /// the first endpoint of the resolved node that serves the method.
    pub fn handler(&self, path: &str, method: HttpMethod) -> (r: Option<(Vec<HandlerId>, Vec<String>)>)
        ensures
            r matches Some((hs, params)) ==> handler_spec(self@, path@, method.spec_bits()) == Some(
                (hs@, params@.map_values(|s: String| s@)),
            ),
            r is None ==> handler_spec(self@, path@, method.spec_bits()) is None,
    {
        let (node, params, mut mws) = match self.route(path) {
            Some(r) => r,
            None => return None,
        };
        let h = match self.method(node, method) {
            Some(h) => h,
            None => return None,
        };
        mws.push(h);
        Some((mws, params))
    }

    /// The first endpoint of node `node` whose method mask serves `method`
    /// (a mask of all ones serves every method, `INVALID` included).
    pub fn method(&self, node: usize, method: HttpMethod) -> (h: Option<HandlerId>)
        requires
            node < self@.len(),
        ensures
            h == method_spec(self@[node as int].endpoints, method.spec_bits()),
    {
        first_serving(&self.nodes[node], method.bits())
    }
}

/// The table built from the given routes, added in order to an empty one.
pub open spec fn new_spec(slices: Seq<RouteSlice>) -> Seq<NodeView>
    decreases slices.len(),
{
    if slices.len() == 0 {
        seq![empty_node()]
    } else {
        insert_route(new_spec(slices.drop_last()), 0, route_keys(slices.last().0@), slices.last().1)
    }
}

} // verus!
