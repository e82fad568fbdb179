//! The general part of the description that the router's `meta` argument
//! sets: information on the API, servers, tags, external documentation and
//! security schemes.
use vstd::prelude::*;

use crate::map::{map_of, StrMap};
use crate::openapi::{
    ApiKeyScheme, Contact, ExternalDocs, ImplicitOAuth2Flow, License, OAuth2Scheme,
    OAuth2SchemeFlows, SecurityScheme, Server, Specification, Tag,
};

verus! {

/// What the contact argument says.
pub struct ContactArgs {
    pub email: Option<String>,
}

/// What the license argument says.
pub struct LicenseArgs {
    pub name: String,
    pub url: Option<String>,
}

/// What a server argument says.
pub struct ServerArgs {
    pub url: String,
    pub description: Option<String>,
}

/// What an external documentation argument says.
pub struct ExternalDocsArgs {
    pub description: Option<String>,
    pub url: String,
}

/// What a tag argument says.
pub struct TagArgs {
    pub name: String,
    pub description: Option<String>,
    pub external_docs: Option<ExternalDocsArgs>,
}

/// What an API key scheme argument says.
pub struct ApiKeyArgs {
    pub name: String,
    pub is_in: String,
}

/// What an implicit flow argument says: the authorization URL, and each
/// scope with its description.
pub struct ImplicitFlowArgs {
    pub authorization_url: String,
    pub scopes: Vec<(String, String)>,
}

/// What an OAuth2 scheme argument says.
pub struct OAuth2Args {
    pub name: String,
    pub implicit: Option<ImplicitFlowArgs>,
}

/// What the security schemes argument says.
pub struct SecuritySchemesArgs {
    pub api_keys: Vec<ApiKeyArgs>,
    pub oauth2: Vec<OAuth2Args>,
}

/// What the `meta` argument of a router says.
pub struct MetaArgs {
    pub title: Option<String>,
    pub description: Option<String>,
    pub terms_of_service: Option<String>,
    pub contact: Option<ContactArgs>,
    pub license: Option<LicenseArgs>,
    pub version: Option<String>,
    pub servers: Vec<ServerArgs>,
    pub tags: Vec<TagArgs>,
    pub security_schemes: Option<SecuritySchemesArgs>,
    pub external_docs: Option<ExternalDocsArgs>,
}

/// The contact information: only its address is given.
pub fn contact(args: ContactArgs) -> (c: Contact)
    ensures
        c == (Contact { name: None, url: None, email: args.email }),
{
    Contact { email: args.email, name: None, url: None }
}

/// The license.
pub fn license(args: LicenseArgs) -> (l: License)
    ensures
        l == (License { name: args.name, url: args.url }),
{
    License { name: args.name, url: args.url }
}

/// A server, with no variables.
pub fn server(args: ServerArgs) -> (s: Server)
    ensures
        s.url == args.url,
        s.description == args.description,
        s.variables.as_map().is_empty(),
{
    let s = Server { url: args.url, description: args.description, variables: StrMap::new() };
    assert(s.variables.as_map() =~= Map::empty());
    s
}

/// The external documentation.
pub open spec fn external_docs_spec(a: ExternalDocsArgs) -> ExternalDocs {
    ExternalDocs { url: a.url, description: a.description }
}

/// The external documentation.
pub fn external_docs(args: ExternalDocsArgs) -> (d: ExternalDocs)
    ensures
        d == external_docs_spec(args),
{
    ExternalDocs { description: args.description, url: args.url }
}

/// The tag.
pub open spec fn tag_spec(a: TagArgs) -> Tag {
    Tag {
        name: a.name,
        description: a.description,
        external_docs: match a.external_docs {
            Some(d) => Some(external_docs_spec(d)),
            None => None,
        },
    }
}

/// The tag.
pub fn tag(args: TagArgs) -> (t: Tag)
    ensures
        t == tag_spec(args),
{
    let external_docs = match args.external_docs {
        Some(d) => Some(external_docs(d)),
        None => None,
    };
    Tag { name: args.name, description: args.description, external_docs }
}

/// The API key scheme, under its name.
pub fn api_key(args: ApiKeyArgs) -> (r: (String, ApiKeyScheme))
    ensures
        r.0 == args.name,
        r.1 == (ApiKeyScheme { name: args.name, is_in: args.is_in }),
{
    (args.name.clone(), ApiKeyScheme { name: args.name, is_in: args.is_in })
}

/// Whether `f` is the implicit flow that `a` describes: later scopes win
/// over earlier ones with the same name.
pub open spec fn implicit_flow_from(f: ImplicitOAuth2Flow, a: ImplicitFlowArgs) -> bool {
    f.authorization_url == a.authorization_url && f.scopes.as_map() == map_of(a.scopes@)
}

/// The implicit flow.
pub fn implicit_flow(args: ImplicitFlowArgs) -> (f: ImplicitOAuth2Flow)
    ensures
        implicit_flow_from(f, args),
{
    ImplicitOAuth2Flow {
        authorization_url: args.authorization_url,
        scopes: StrMap::from_pairs(args.scopes),
    }
}

/// Whether `f` holds the flows that `a` describes.
pub open spec fn flows_from(f: OAuth2SchemeFlows, a: Option<ImplicitFlowArgs>) -> bool {
    match (f.implicit, a) {
        (Some(x), Some(y)) => implicit_flow_from(x, y),
        (None, None) => true,
        _ => false,
    }
}

/// The OAuth2 flows.
pub fn oauth2_flow(implicit: Option<ImplicitFlowArgs>) -> (f: OAuth2SchemeFlows)
    ensures
        flows_from(f, implicit),
{
    let implicit = match implicit {
        Some(a) => Some(implicit_flow(a)),
        None => None,
    };
    OAuth2SchemeFlows { implicit }
}

/// The OAuth2 scheme, under its name.
pub fn oauth2(args: OAuth2Args) -> (r: (String, OAuth2Scheme))
    ensures
        r.0 == args.name,
        flows_from(r.1.flows, args.implicit),
{
    (args.name, OAuth2Scheme { flows: oauth2_flow(args.implicit) })
}

/// One security scheme argument, of either kind.
pub enum SchemeArg {
    ApiKey(ApiKeyArgs),
    OAuth2(OAuth2Args),
}

/// The name a scheme argument declares.
pub open spec fn scheme_name(a: SchemeArg) -> Seq<char> {
    match a {
        SchemeArg::ApiKey(k) => k.name@,
        SchemeArg::OAuth2(o) => o.name@,
    }
}

/// Whether `s` is the scheme that `a` describes.
pub open spec fn scheme_from(s: SecurityScheme, a: SchemeArg) -> bool {
    match (s, a) {
        (SecurityScheme::ApiKey(x), SchemeArg::ApiKey(k)) => x == (ApiKeyScheme {
            name: k.name,
            is_in: k.is_in,
        }),
        (SecurityScheme::OAuth2(x), SchemeArg::OAuth2(o)) => flows_from(x.flows, o.implicit),
        _ => false,
    }
}

/// The scheme arguments in the order they are inserted: the API keys, then
/// the OAuth2 schemes.
pub open spec fn scheme_args(a: SecuritySchemesArgs) -> Seq<SchemeArg> {
    a.api_keys@.map_values(|k: ApiKeyArgs| SchemeArg::ApiKey(k)) + a.oauth2@.map_values(
        |o: OAuth2Args| SchemeArg::OAuth2(o),
    )
}

/// Whether `m` is the map that inserting, in order, the schemes that `es`
/// describe gives.
pub open spec fn schemes_from(m: Map<Seq<char>, SecurityScheme>, es: Seq<SchemeArg>) -> bool {
    exists|p: Seq<(String, SecurityScheme)>|
        #![trigger map_of(p)]
        p.len() == es.len() && m == map_of(p) && forall|i: int|
            0 <= i < p.len() ==> (#[trigger] p[i]).0@ == scheme_name(es[i]) && scheme_from(
                p[i].1,
                es[i],
            )
}

/// The security schemes by name: the API keys, then the OAuth2 schemes, a
/// later one winning over an earlier one of the same name.
pub fn security_schemes(args: SecuritySchemesArgs) -> (m: StrMap<SecurityScheme>)
    ensures
        schemes_from(m.as_map(), scheme_args(args)),
{
    let ghost es = scheme_args(args);
    let SecuritySchemesArgs { api_keys, oauth2: oauths } = args;
    let ghost ks = api_keys@;
    let ghost os = oauths@;
    let mut pairs: Vec<(String, SecurityScheme)> = Vec::new();
    let mut rest = api_keys;
    let n = rest.len();
    let mut i: usize = 0;
    while i < n
        invariant
            n == ks.len(),
            i <= n,
            rest@ == ks.skip(i as int),
            es == ks.map_values(|k: ApiKeyArgs| SchemeArg::ApiKey(k)) + os.map_values(
                |o: OAuth2Args| SchemeArg::OAuth2(o),
            ),
            pairs@.len() == i,
            forall|j: int|
                0 <= j < i ==> (#[trigger] pairs@[j]).0@ == scheme_name(es[j]) && scheme_from(
                    pairs@[j].1,
                    es[j],
                ),
        decreases n - i,
    {
        let k = rest.remove(0);
        proof {
            assert(ks.skip(i as int)[0] == ks[i as int]);
            assert(rest@ =~= ks.skip(i + 1));
            assert(es[i as int] == SchemeArg::ApiKey(ks[i as int]));
        }
        let (name, scheme) = api_key(k);
        pairs.push((name, SecurityScheme::ApiKey(scheme)));
        i = i + 1;
    }
    let mut rest = oauths;
    let m = rest.len();
    let mut i: usize = 0;
    while i < m
        invariant
            n == ks.len(),
            m == os.len(),
            i <= m,
            rest@ == os.skip(i as int),
            es == ks.map_values(|k: ApiKeyArgs| SchemeArg::ApiKey(k)) + os.map_values(
                |o: OAuth2Args| SchemeArg::OAuth2(o),
            ),
            pairs@.len() == n + i,
            forall|j: int|
                0 <= j < n + i ==> (#[trigger] pairs@[j]).0@ == scheme_name(es[j]) && scheme_from(
                    pairs@[j].1,
                    es[j],
                ),
        decreases m - i,
    {
        let o = rest.remove(0);
        proof {
            assert(os.skip(i as int)[0] == os[i as int]);
            assert(rest@ =~= os.skip(i + 1));
            assert(es[n + i] == SchemeArg::OAuth2(os[i as int]));
        }
        let (name, scheme) = oauth2(o);
        pairs.push((name, SecurityScheme::OAuth2(scheme)));
        i = i + 1;
    }
    let ghost p = pairs@;
    let r = StrMap::from_pairs(pairs);
    assert(schemes_from(r.as_map(), es)) by {
        assert(p.len() == es.len());
        assert(r.as_map() == map_of(p));
    }
    r
}

/// Sets the general part of the description from the `meta` argument: each
/// field of the information, the external documentation, the tags, the
/// servers and the security schemes are replaced by what the argument says
/// (nothing where it says nothing).
pub fn apply_meta(spec: &mut Specification, args: MetaArgs)
    ensures
        final(spec).info.title == args.title,
        final(spec).info.description == args.description,
        final(spec).info.terms_of_service == args.terms_of_service,
        final(spec).info.contact == (match args.contact {
            Some(c) => Some(Contact { name: None, url: None, email: c.email }),
            None => None,
        }),
        final(spec).info.license == (match args.license {
            Some(l) => Some(License { name: l.name, url: l.url }),
            None => None,
        }),
        final(spec).info.version == args.version,
        final(spec).external_docs == (match args.external_docs {
            Some(d) => Some(external_docs_spec(d)),
            None => None,
        }),
        final(spec).tags@ == args.tags@.map_values(|t: TagArgs| tag_spec(t)),
        final(spec).servers@.len() == args.servers@.len(),
        forall|i: int|
            0 <= i < args.servers@.len() ==> (#[trigger] final(spec).servers@[i]).url
                == args.servers@[i].url && final(spec).servers@[i].description
                == args.servers@[i].description && final(spec).servers@[i].variables.as_map().is_empty(),
        match args.security_schemes {
            Some(s) => schemes_from(final(spec).components.security_schemes.as_map(), scheme_args(s)),
            None => final(spec).components.security_schemes.as_map().is_empty(),
        },
        final(spec).paths.as_map() == old(spec).paths.as_map(),
        final(spec).components.schemas.as_map() == old(spec).components.schemas.as_map(),
        final(spec).components.responses.as_map() == old(spec).components.responses.as_map(),
        final(spec).openapi == old(spec).openapi,
{
    let MetaArgs {
        title,
        description,
        terms_of_service,
        contact: contact_args,
        license: license_args,
        version,
        servers: server_args,
        tags: tag_args,
        security_schemes: scheme_args_opt,
        external_docs: docs_args,
    } = args;
    spec.info.title = title;
    spec.info.description = description;
    spec.info.terms_of_service = terms_of_service;
    spec.info.contact = match contact_args {
        Some(c) => Some(contact(c)),
        None => None,
    };
    spec.info.license = match license_args {
        Some(l) => Some(license(l)),
        None => None,
    };
    spec.info.version = version;
    spec.external_docs = match docs_args {
        Some(d) => Some(external_docs(d)),
        None => None,
    };
    let ghost ts = tag_args@;
    let mut rest = tag_args;
    let mut tags: Vec<Tag> = Vec::new();
    let n = rest.len();
    let mut i: usize = 0;
    while i < n
        invariant
            n == ts.len(),
            i <= n,
            rest@ == ts.skip(i as int),
            tags@ == ts.take(i as int).map_values(|t: TagArgs| tag_spec(t)),
        decreases n - i,
    {
        let t = rest.remove(0);
        proof {
            assert(ts.skip(i as int)[0] == ts[i as int]);
            assert(rest@ =~= ts.skip(i + 1));
        }
        tags.push(tag(t));
        proof {
            assert(tags@ =~= ts.take(i + 1).map_values(|t: TagArgs| tag_spec(t)));
        }
        i = i + 1;
    }
    assert(ts.take(n as int) =~= ts);
    spec.tags = tags;
    let ghost ss = server_args@;
    let mut rest = server_args;
    let mut servers: Vec<Server> = Vec::new();
    let n = rest.len();
    let mut i: usize = 0;
    while i < n
        invariant
            n == ss.len(),
            i <= n,
            rest@ == ss.skip(i as int),
            servers@.len() == i,
            forall|j: int|
                0 <= j < i ==> (#[trigger] servers@[j]).url == ss[j].url && servers@[j].description
                    == ss[j].description && servers@[j].variables.as_map().is_empty(),
        decreases n - i,
    {
        let s = rest.remove(0);
        proof {
            assert(ss.skip(i as int)[0] == ss[i as int]);
            assert(rest@ =~= ss.skip(i + 1));
        }
        servers.push(server(s));
        i = i + 1;
    }
    spec.servers = servers;
    spec.components.security_schemes = match scheme_args_opt {
        Some(s) => security_schemes(s),
        None => {
            let m = StrMap::new();
            assert(m.as_map().is_empty());
            m
        },
    };
}

} // verus!
