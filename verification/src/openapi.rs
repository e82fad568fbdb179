//! The OpenAPI description that the endpoint and schema declarations build
//! up: its object types, and the reference paths it writes.
use vstd::prelude::*;

use crate::map::{Duplicate, StrMap};

verus! {

/// The whole description.
pub struct Specification {
    pub openapi: OpenAPIVersion,
    pub info: Info,
    pub servers: Vec<Server>,
    pub paths: StrMap<PathItem>,
    pub components: Components,
    pub tags: Vec<Tag>,
    pub external_docs: Option<ExternalDocs>,
}

/// The version of the OpenAPI format that is written.
#[derive(PartialEq, Eq, Structural)]
pub enum OpenAPIVersion {
    V304,
}

/// General information on the API.
pub struct Info {
    pub title: Option<String>,
    pub description: Option<String>,
    pub terms_of_service: Option<String>,
    pub contact: Option<Contact>,
    pub license: Option<License>,
    pub version: Option<String>,
}

/// Whom to contact about the API.
pub struct Contact {
    pub name: Option<String>,
    pub url: Option<String>,
    pub email: Option<String>,
}

/// The license of the API.
pub struct License {
    pub name: String,
    pub url: Option<String>,
}

/// A tag that operations can be grouped by.
pub struct Tag {
    pub name: String,
    pub description: Option<String>,
    pub external_docs: Option<ExternalDocs>,
}

/// A link to documentation kept elsewhere.
pub struct ExternalDocs {
    pub url: String,
    pub description: Option<String>,
}

/// The reusable parts of the description.
pub struct Components {
    pub schemas: StrMap<Schema>,
    pub security_schemes: StrMap<SecurityScheme>,
    pub responses: StrMap<Response>,
}

/// A value given in place, or a reference to a component.
pub enum OrRef<T> {
    Ref(ReferenceObject),
    Val(T),
}

/// A reference to a named component.
pub struct ReferenceObject {
    pub component: ComponentType,
    pub name: String,
}

/// The kinds of component a reference can point to.
#[derive(PartialEq, Eq, Structural)]
pub enum ComponentType {
    Response,
    Schema,
}

/// The operations served under one path, by lower-case method name.
pub struct PathItem {
    pub operations: StrMap<OperationObject>,
}

/// One operation of a path.
pub struct OperationObject {
    pub tags: Vec<String>,
    pub summary: Option<String>,
    pub description: Option<String>,
    pub operation_id: String,
    pub parameters: Vec<Parameter>,
    pub request_body: Option<RequestBody>,
    pub responses: StrMap<OrRef<ContentlessResponse>>,
    pub security: Vec<SecurityRequirement>,
}

/// One security requirement of an operation: the scheme's name and the
/// scopes it needs.
pub struct SecurityRequirement {
    pub name: String,
    pub scopes: Vec<String>,
}

/// A parameter of an operation.
pub struct Parameter {
    pub name: String,
    pub is_in: String,
    pub description: Option<String>,
    pub required: bool,
    pub explode: bool,
    pub schema: ReferenceObject,
}

/// The body an operation accepts, by content type.
pub struct RequestBody {
    pub description: Option<String>,
    pub content: StrMap<ContentReference>,
    pub required: bool,
}

/// The schema of one content type of a request body.
pub struct ContentReference {
    pub schema: ReferenceObject,
}

/// A response that is described without content.
pub struct ContentlessResponse {
    pub description: String,
}

/// A response component, with its content by content type.
pub struct Response {
    pub description: String,
    pub content: StrMap<Content>,
}

/// The schema of one content type of a response.
pub struct Content {
    pub schema: OrRef<Schema>,
}

/// A schema with its documentation.
pub struct Schema {
    pub description: Option<String>,
    pub example: Option<String>,
    pub ty: SchemaType,
}

/// The shapes a schema can have.
pub enum SchemaType {
    Enum(EnumSchema),
    Struct(StructSchema),
    Array(ArraySchema),
    Primitive(PrimitiveSchema),
}

/// A list of items of one schema.
pub struct ArraySchema {
    pub items: Box<OrRef<SchemaType>>,
}

/// An object with named properties.
pub struct StructSchema {
    pub properties: StrMap<OrRef<Schema>>,
    pub required: Vec<String>,
}

/// A value out of a fixed list.
pub struct EnumSchema {
    pub ty: String,
    pub variants: Vec<String>,
    pub example: Option<String>,
}

/// A value of a primitive type.
pub struct PrimitiveSchema {
    pub ty: &'static str,
    pub format: Option<String>,
}

/// A way of authenticating.
pub enum SecurityScheme {
    ApiKey(ApiKeyScheme),
    OAuth2(OAuth2Scheme),
}

/// Authentication by a key sent with each request.
pub struct ApiKeyScheme {
    pub name: String,
    pub is_in: String,
}

/// Authentication by OAuth2.
pub struct OAuth2Scheme {
    pub flows: OAuth2SchemeFlows,
}

/// The OAuth2 flows that are offered.
pub struct OAuth2SchemeFlows {
    pub implicit: Option<ImplicitOAuth2Flow>,
}

/// The implicit OAuth2 flow.
pub struct ImplicitOAuth2Flow {
    pub authorization_url: String,
    pub scopes: StrMap<String>,
}

/// A server the API is offered on.
pub struct Server {
    pub url: String,
    pub description: Option<String>,
    pub variables: StrMap<ServerVariable>,
}

/// A variable of a server's URL.
pub struct ServerVariable {
    pub options: Vec<String>,
    pub default: String,
    pub description: Option<String>,
}

/// The directory of the components a reference points into.
pub open spec fn component_dir(c: ComponentType) -> Seq<char> {
    match c {
        ComponentType::Response => "responses"@,
        ComponentType::Schema => "schemas"@,
    }
}

/// The JSON pointer that a reference is written as.
pub open spec fn ref_path_spec(r: ReferenceObject) -> Seq<char> {
    "#/components/"@ + component_dir(r.component) + "/"@ + r.name@
}

impl Duplicate for ComponentType {
    fn duplicate(&self) -> (r: ComponentType) {
        match self {
            ComponentType::Response => ComponentType::Response,
            ComponentType::Schema => ComponentType::Schema,
        }
    }
}

impl Duplicate for ReferenceObject {
    fn duplicate(&self) -> (r: ReferenceObject) {
        ReferenceObject { component: self.component.duplicate(), name: self.name.clone() }
    }
}

impl<T: Duplicate> Duplicate for OrRef<T> {
    fn duplicate(&self) -> (r: OrRef<T>) {
        match self {
            OrRef::Ref(x) => OrRef::Ref(x.duplicate()),
            OrRef::Val(x) => OrRef::Val(x.duplicate()),
        }
    }
}

impl Duplicate for ContentReference {
    fn duplicate(&self) -> (r: ContentReference) {
        ContentReference { schema: self.schema.duplicate() }
    }
}

impl Duplicate for ContentlessResponse {
    fn duplicate(&self) -> (r: ContentlessResponse) {
        ContentlessResponse { description: self.description.clone() }
    }
}

impl Duplicate for Parameter {
    fn duplicate(&self) -> (r: Parameter) {
        Parameter {
            name: self.name.clone(),
            is_in: self.is_in.clone(),
            description: self.description.duplicate(),
            required: self.required,
            explode: self.explode,
            schema: self.schema.duplicate(),
        }
    }
}

impl ReferenceObject {
    /// A reference to the schema component `name`.
    pub fn schema(name: String) -> (r: ReferenceObject)
        ensures
            r.component == ComponentType::Schema,
            r.name == name,
    {
        ReferenceObject { component: ComponentType::Schema, name }
    }

    /// A reference to the response component `name`.
    pub fn response(name: String) -> (r: ReferenceObject)
        ensures
            r.component == ComponentType::Response,
            r.name == name,
    {
        ReferenceObject { component: ComponentType::Response, name }
    }

    /// The JSON pointer the reference is written as:
    /// `#/components/{responses|schemas}/{name}`.
    pub fn ref_path(&self) -> (p: String)
        ensures
            p@ == ref_path_spec(*self),
    {
        let mut p = String::from_str("#/components/");
        match self.component {
            ComponentType::Response => p.append("responses"),
            ComponentType::Schema => p.append("schemas"),
        }
        p.append("/");
        p.append(self.name.as_str());
        p
    }
}

/// Two requests bodies with the same content.
pub open spec fn same_request_body(a: RequestBody, b: RequestBody) -> bool {
    &&& a.description == b.description
    &&& a.content.as_map() == b.content.as_map()
    &&& a.required == b.required
}

/// Two security requirements with the same content.
pub open spec fn same_requirement(a: SecurityRequirement, b: SecurityRequirement) -> bool {
    a.name == b.name && a.scopes@ == b.scopes@
}

/// Two operations that are alike in all but their identifiers.
pub open spec fn same_operation(a: OperationObject, b: OperationObject) -> bool {
    &&& a.tags@ == b.tags@
    &&& a.summary == b.summary
    &&& a.description == b.description
    &&& a.parameters@ == b.parameters@
    &&& match (a.request_body, b.request_body) {
        (Some(x), Some(y)) => same_request_body(x, y),
        (None, None) => true,
        _ => false,
    }
    &&& a.responses.as_map() == b.responses.as_map()
    &&& a.security@.len() == b.security@.len()
    &&& forall|i: int|
        0 <= i < a.security@.len() ==> same_requirement(#[trigger] a.security@[i], b.security@[i])
}

impl RequestBody {
    /// A copy of the body description.
    pub fn duplicate(&self) -> (r: RequestBody)
        ensures
            same_request_body(r, *self),
    {
        RequestBody {
            description: self.description.duplicate(),
            content: self.content.duplicate(),
            required: self.required,
        }
    }
}

impl SecurityRequirement {
    /// A copy of the requirement.
    pub fn duplicate(&self) -> (r: SecurityRequirement)
        ensures
            same_requirement(r, *self),
    {
        SecurityRequirement { name: self.name.clone(), scopes: crate::map::duplicate_vec(&self.scopes) }
    }
}

impl OperationObject {
    /// A copy of the operation with another identifier.
    pub fn with_id(&self, operation_id: String) -> (r: OperationObject)
        ensures
            same_operation(r, *self),
            r.operation_id == operation_id,
    {
        let request_body = match &self.request_body {
            Some(b) => Some(b.duplicate()),
            None => None,
        };
        let mut security: Vec<SecurityRequirement> = Vec::new();
        let mut i: usize = 0;
        while i < self.security.len()
            invariant
                i <= self.security@.len(),
                security@.len() == i,
                forall|j: int| 0 <= j < i ==> same_requirement(#[trigger] security@[j], self.security@[j]),
            decreases self.security@.len() - i,
        {
            security.push(self.security[i].duplicate());
            i = i + 1;
        }
        OperationObject {
            tags: crate::map::duplicate_vec(&self.tags),
            summary: self.summary.duplicate(),
            description: self.description.duplicate(),
            operation_id,
            parameters: crate::map::duplicate_vec(&self.parameters),
            request_body,
            responses: self.responses.duplicate(),
            security,
        }
    }
}

impl Info {
    /// Information with nothing filled in.
    pub fn new() -> (i: Info)
        ensures
            i.title is None && i.description is None && i.terms_of_service is None,
            i.contact is None && i.license is None && i.version is None,
    {
        Info {
            title: None,
            description: None,
            terms_of_service: None,
            contact: None,
            license: None,
            version: None,
        }
    }
}

impl Components {
    /// No components.
    pub fn new() -> (c: Components)
        ensures
            c.schemas.as_map() == Map::<Seq<char>, Schema>::empty(),
            c.security_schemes.as_map() == Map::<Seq<char>, SecurityScheme>::empty(),
            c.responses.as_map() == Map::<Seq<char>, Response>::empty(),
    {
        Components { schemas: StrMap::new(), security_schemes: StrMap::new(), responses: StrMap::new() }
    }
}

impl Specification {
    /// The description before anything is declared.
    pub fn new() -> (s: Specification)
        ensures
            s.openapi == OpenAPIVersion::V304,
            s.info.title is None && s.info.description is None && s.info.terms_of_service is None,
            s.info.contact is None && s.info.license is None && s.info.version is None,
            s.servers@.len() == 0,
            s.paths.as_map() == Map::<Seq<char>, PathItem>::empty(),
            s.components.schemas.as_map() == Map::<Seq<char>, Schema>::empty(),
            s.components.security_schemes.as_map() == Map::<Seq<char>, SecurityScheme>::empty(),
            s.components.responses.as_map() == Map::<Seq<char>, Response>::empty(),
            s.tags@.len() == 0,
            s.external_docs is None,
    {
        Specification {
            openapi: OpenAPIVersion::V304,
            info: Info::new(),
            servers: Vec::new(),
            paths: StrMap::new(),
            components: Components::new(),
            tags: Vec::new(),
            external_docs: None,
        }
    }
}

} // verus!
