//! The operations that endpoint declarations add to the description: the
//! path they are served under, one operation per method, and the pieces an
//! operation is made of.
use vstd::prelude::*;

use crate::map::{map_of, StrMap};
use crate::openapi::{
    same_request_body, same_requirement, ComponentType, ContentReference,
    ContentlessResponse, OperationObject, OrRef, Parameter, PathItem, ReferenceObject, RequestBody,
    SecurityRequirement,
};
use crate::text::{
    chars_of, chars_of_all, join, join_with, lower_chars, lower_seq, replace, replace_all,
    split_by, split_pat, string_of, string_views, views,
};

verus! {

/// How a response of an operation is given.
pub enum ResponseType {
    /// A reference to a response component.
    Ref(String),
    /// A response with only a description.
    Contentless(String),
    /// A reference to the list form of a response component.
    Array(String),
}

/// What an endpoint declaration says of its operations.
pub struct PathArgs {
    /// The segments of the route.
    pub route: Vec<String>,
    /// The methods it is served for.
    pub methods: Vec<String>,
    pub tags: Vec<String>,
    pub summary: Option<String>,
    pub description: Option<String>,
    pub request_body: Option<RequestBody>,
    pub parameters: Vec<Parameter>,
    /// The responses by status code, in the order they are declared.
    pub responses: Vec<(String, OrRef<ContentlessResponse>)>,
    pub security: Vec<SecurityRequirement>,
}

/// `s` without the characters `c` at its start.
pub open spec fn trim_start(s: Seq<char>, c: char) -> Seq<char>
    decreases s.len(),
{
    if s.len() > 0 && s[0] == c {
        trim_start(s.drop_first(), c)
    } else {
        s
    }
}

/// `s` without the characters `c` at its end.
pub open spec fn trim_end(s: Seq<char>, c: char) -> Seq<char>
    decreases s.len(),
{
    if s.len() > 0 && s.last() == c {
        trim_end(s.drop_last(), c)
    } else {
        s
    }
}

/// The segments of a route: `str::trim_matches('/')`, then
/// `str::split("/")`.
pub open spec fn route_segments(route: Seq<char>) -> Seq<Seq<char>> {
    split_pat(trim_end(trim_start(route, '/'), '/'), seq!['/'])
}

fn trim_slashes(s: &Vec<char>) -> (r: Vec<char>)
    ensures
        r@ == trim_end(trim_start(s@, '/'), '/'),
{
    let mut a: usize = 0;
    assert(s@.skip(0) =~= s@);
    while a < s.len() && s[a] == '/'
        invariant
            a <= s@.len(),
            trim_start(s@.skip(a as int), '/') == trim_start(s@, '/'),
        decreases s@.len() - a,
    {
        assert(s@.skip(a + 1) =~= s@.skip(a as int).drop_first());
        a = a + 1;
    }
    let ghost t = s@.skip(a as int);
    assert(trim_start(t, '/') == t);
    let mut b: usize = s.len();
    while b > a && s[b - 1] == '/'
        invariant
            a <= b <= s@.len(),
            trim_end(s@.subrange(a as int, b as int), '/') == trim_end(t, '/'),
        decreases b,
    {
        assert(s@.subrange(a as int, b - 1) =~= s@.subrange(a as int, b as int).drop_last());
        b = b - 1;
    }
    assert(t =~= s@.subrange(a as int, s@.len() as int));
    crate::text::slice_chars(s, a, b)
}

/// The segments of a route: slashes at either end dropped, the rest split
/// at each slash.
pub fn parse_route(route: &str) -> (segments: Vec<String>)
    ensures
        string_views(segments@) == route_segments(route@),
{
    let cs = chars_of(route);
    let t = trim_slashes(&cs);
    let slash = vec!['/'];
    assert(slash@ =~= seq!['/']);
    let parts = split_by(&t, &slash);
    let mut segments: Vec<String> = Vec::new();
    let mut i: usize = 0;
    while i < parts.len()
        invariant
            i <= parts@.len(),
            segments@.len() == i,
            forall|j: int| 0 <= j < i ==> (#[trigger] segments@[j])@ == parts@[j]@,
        decreases parts@.len() - i,
    {
        segments.push(string_of(&parts[i]));
        i = i + 1;
    }
    assert(string_views(segments@) =~= views(parts@));
    segments
}

/// An endpoint whose route is declared is described under a slash followed
/// by the declared route without the slashes at its ends.
pub proof fn law_declared_route_path(route: Seq<char>, segments: Seq<String>)
    requires
        string_views(segments) == route_segments(route),
    ensures
        path_key(segments) == seq!['/'] + trim_end(trim_start(route, '/'), '/'),
{
    crate::text::lemma_join_split(trim_end(trim_start(route, '/'), '/'), '/');
}

/// The text of the route: its segments joined with slashes.
pub open spec fn route_text(route: Seq<String>) -> Seq<char> {
    join(string_views(route), seq!['/'])
}

/// The path the operations of a route are described under.
pub open spec fn path_key(route: Seq<String>) -> Seq<char> {
    seq!['/'] + route_text(route)
}

/// The identifier of the operation of a method on a route: the lower-case
/// method, then the route with each slash replaced by an underscore.
pub open spec fn operation_id_spec(method: Seq<char>, route: Seq<String>) -> Seq<char> {
    method + replace(route_text(route), seq!['/'], seq!['_'])
}

/// The methods in lower case.
pub open spec fn lowered(methods: Seq<String>) -> Seq<Seq<char>> {
    methods.map_values(|m: String| lower_seq(m@))
}

/// Whether `o` is the operation the declaration describes, whatever its
/// identifier.
pub open spec fn operation_from(o: OperationObject, a: PathArgs) -> bool {
    &&& o.tags@ == a.tags@
    &&& o.summary == a.summary
    &&& o.description == a.description
    &&& o.parameters@ == a.parameters@
    &&& match (o.request_body, a.request_body) {
        (Some(x), Some(y)) => same_request_body(x, y),
        (None, None) => true,
        _ => false,
    }
    &&& o.responses.as_map() == map_of(a.responses@)
    &&& o.security@.len() == a.security@.len()
    &&& forall|i: int|
        0 <= i < o.security@.len() ==> same_requirement(#[trigger] o.security@[i], a.security@[i])
}

/// The operations of the path before the declaration.
pub open spec fn old_operations(paths: Map<Seq<char>, PathItem>, key: Seq<char>) -> Map<
    Seq<char>,
    OperationObject,
> {
    if paths.dom().contains(key) {
        paths[key].operations.as_map()
    } else {
        Map::empty()
    }
}

/// Whether `ops` holds the operations of `old` and, for each of the
/// methods, the declared operation under its identifier.
pub open spec fn operations_added(
    old: Map<Seq<char>, OperationObject>,
    ops: Map<Seq<char>, OperationObject>,
    a: PathArgs,
    methods: Seq<Seq<char>>,
) -> bool {
    &&& forall|k: Seq<char>|
        #![trigger ops.dom().contains(k)]
        ops.dom().contains(k) <==> (old.dom().contains(k) || methods.contains(k))
    &&& forall|k: Seq<char>|
        #![trigger old.dom().contains(k)]
        old.dom().contains(k) && !methods.contains(k) ==> ops[k] == old[k]
    &&& forall|k: Seq<char>|
        #![trigger methods.contains(k)]
        methods.contains(k) ==> operation_from(ops[k], a) && ops[k].operation_id@
            == operation_id_spec(k, a.route@)
}

/// Adds the operations an endpoint declares: under `/` and the route, one
/// operation per method, in place of one for the same method.
pub fn add_path(paths: &mut StrMap<PathItem>, args: PathArgs)
    ensures
        ({
            let key = path_key(args.route@);
            let item = final(paths).as_map()[key];
            &&& final(paths).as_map() == old(paths).as_map().insert(key, item)
            &&& operations_added(
                old_operations(old(paths).as_map(), key),
                item.operations.as_map(),
                args,
                lowered(args.methods@),
            )
        }),
{
    let ghost a = args;
    let PathArgs {
        route,
        methods,
        tags,
        summary,
        description,
        request_body,
        parameters,
        responses,
        security,
    } = args;
    let slash = vec!['/'];
    let underscore = vec!['_'];
    assert(slash@ =~= seq!['/']);
    assert(underscore@ =~= seq!['_']);
    let route_chars = join_with(&chars_of_all(&route), &slash);
    let suffix = replace_all(&route_chars, &slash, &underscore);
    proof {
        reveal_strlit("/");
    }
    let mut key = String::from_str("/");
    key.append(string_of(&route_chars).as_str());
    assert(key@ =~= path_key(a.route@));
    let template = OperationObject {
        tags,
        summary,
        description,
        operation_id: String::new(),
        parameters,
        request_body,
        responses: StrMap::from_pairs(responses),
        security,
    };
    assert(operation_from(template, a));
    let ghost old_ops = old_operations(old(paths).as_map(), key@);
    let mut item = match paths.take(key.as_str()) {
        Some(i) => i,
        None => PathItem { operations: StrMap::new() },
    };
    assert(item.operations.as_map() == old_ops);
    let ghost ms = lowered(a.methods@);
    let mut j: usize = 0;
    while j < methods.len()
        invariant
            j <= methods@.len(),
            methods@ == a.methods@,
            ms == lowered(a.methods@),
            operation_from(template, a),
            suffix@ == replace(route_text(a.route@), seq!['/'], seq!['_']),
            operations_added(old_ops, item.operations.as_map(), a, ms.take(j as int)),
        decreases methods@.len() - j,
    {
        let m = lower_chars(&chars_of(methods[j].as_str()));
        let mut id = string_of(&m);
        id.append(string_of(&suffix).as_str());
        let op = template.with_id(id);
        let ghost before = item.operations.as_map();
        item.operations.insert(string_of(&m), op);
        proof {
            let mk = lower_seq(methods@[j as int]@);
            let s0 = ms.take(j as int);
            let s1 = ms.take(j + 1);
            assert(m@ == mk);
            assert(ms.take(j + 1) =~= ms.take(j as int).push(mk));
            let after = item.operations.as_map();
            assert forall|k: Seq<char>| #![trigger ms.take(j + 1).contains(k)]
                ms.take(j + 1).contains(k) implies operation_from(after[k], a)
                && after[k].operation_id@ == operation_id_spec(k, a.route@) by {
                if k != mk {
                    assert(ms.take(j as int).contains(k));
                }
            }
            assert forall|k: Seq<char>| #![trigger after.dom().contains(k)]
                after.dom().contains(k) <==> (old_ops.dom().contains(k) || ms.take(j + 1).contains(k))
                by {
                assert(before.dom().contains(k) <==> (old_ops.dom().contains(k) || s0.contains(k)));
                if s0.contains(k) {
                    let w = choose|w: int| 0 <= w < s0.len() && #[trigger] s0[w] == k;
                    assert(s1[w] == k);
                }
                if k == mk {
                    assert(s1[j as int] == mk);
                }
                if s1.contains(k) && k != mk {
                    let w = choose|w: int| 0 <= w < s1.len() && #[trigger] s1[w] == k;
                    assert(s0[w] == k);
                }
            }
            assert forall|k: Seq<char>| #![trigger old_ops.dom().contains(k)]
                old_ops.dom().contains(k) && !ms.take(j + 1).contains(k) implies after[k] == old_ops[k] by {
                assert(ms.take(j + 1)[j as int] == mk);
                if ms.take(j as int).contains(k) {
                    let w = choose|w: int| 0 <= w < s0.len() && #[trigger] s0[w] == k;
                    assert(s1[w] == k);
                }
            }
        }
        j = j + 1;
    }
    assert(ms.take(methods@.len() as int) =~= ms);
    paths.insert(key, item);
}

/// A parameter of an operation, whose schema is the named schema component.
pub fn parameter(
    name: String,
    is_in: String,
    description: Option<String>,
    required: bool,
    explode: bool,
    schema: String,
) -> (p: Parameter)
    ensures
        p.name == name && p.is_in == is_in && p.description == description,
        p.required == required && p.explode == explode,
        p.schema == (ReferenceObject { component: ComponentType::Schema, name: schema }),
{
    Parameter { name, is_in, description, required, explode, schema: ReferenceObject::schema(schema) }
}

/// The name of the response component that lists values of `name`.
pub open spec fn array_response_name(name: Seq<char>) -> Seq<char> {
    "autogen__"@ + name + "Array"@
}

/// The name of the response component that lists values of `name`.
pub fn array_response(name: &str) -> (r: String)
    ensures
        r@ == array_response_name(name@),
{
    let mut r = String::from_str("autogen__");
    r.append(name);
    r.append("Array");
    r
}

/// A response of an operation, under its status code.
pub fn response(code: String, ty: ResponseType) -> (r: (String, OrRef<ContentlessResponse>))
    ensures
        r.0 == code,
        match ty {
            ResponseType::Ref(n) => r.1 == OrRef::<ContentlessResponse>::Ref(
                ReferenceObject { component: ComponentType::Response, name: n },
            ),
            ResponseType::Contentless(d) => r.1 == OrRef::Val(ContentlessResponse { description: d }),
            ResponseType::Array(n) => r.1 matches OrRef::Ref(x) && x.component
                == ComponentType::Response && x.name@ == array_response_name(n@),
        },
{
    let r = match ty {
        ResponseType::Ref(n) => OrRef::Ref(ReferenceObject::response(n)),
        ResponseType::Contentless(d) => OrRef::Val(ContentlessResponse { description: d }),
        ResponseType::Array(n) => OrRef::Ref(ReferenceObject::response(array_response(n.as_str()))),
    };
    (code, r)
}

/// The schema of one content type of a request body: a reference to the
/// named schema component.
pub fn request_schema(content_type: String, schema: String) -> (r: (String, ContentReference))
    ensures
        r.0 == content_type,
        r.1 == (ContentReference {
            schema: ReferenceObject { component: ComponentType::Schema, name: schema },
        }),
{
    (content_type, ContentReference { schema: ReferenceObject::schema(schema) })
}

/// The content map of the request schemas, by content type: a later schema
/// for a content type wins over an earlier one.
pub open spec fn request_content(schemas: Seq<(String, String)>) -> Map<Seq<char>, ContentReference>
    decreases schemas.len(),
{
    if schemas.len() == 0 {
        Map::empty()
    } else {
        request_content(schemas.drop_last()).insert(
            schemas.last().0@,
            ContentReference {
                schema: ReferenceObject { component: ComponentType::Schema, name: schemas.last().1 },
            },
        )
    }
}

/// The body an operation accepts: its schemas are given by content type and
/// schema name.
pub fn request_body(description: Option<String>, required: bool, schemas: Vec<(String, String)>) -> (b:
    RequestBody)
    ensures
        b.description == description,
        b.required == required,
        b.content.as_map() == request_content(schemas@),
{
    let ghost ss = schemas@;
    let mut rest = schemas;
    let mut content: StrMap<ContentReference> = StrMap::new();
    let n = rest.len();
    let mut i: usize = 0;
    while i < n
        invariant
            n == ss.len(),
            i <= n,
            rest@ == ss.skip(i as int),
            content.as_map() == request_content(ss.take(i as int)),
        decreases n - i,
    {
        let (ct, name) = rest.remove(0);
        proof {
            assert(ss.skip(i as int)[0] == ss[i as int]);
            assert(rest@ =~= ss.skip(i + 1));
            assert(ss.take(i + 1).drop_last() =~= ss.take(i as int));
        }
        let (k, v) = request_schema(ct, name);
        content.insert(k, v);
        i = i + 1;
    }
    assert(ss.take(n as int) =~= ss);
    RequestBody { description, content, required }
}

/// A security requirement: the scheme's name and the scopes it needs.
pub fn security(name: String, scopes: Vec<String>) -> (s: SecurityRequirement)
    ensures
        s.name == name,
        s.scopes@ == scopes@,
{
    SecurityRequirement { name, scopes }
}

} // verus!
