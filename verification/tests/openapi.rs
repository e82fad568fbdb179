use resty::map::{key_less, StrMap};
use resty::meta::{
    apply_meta, ApiKeyArgs, ContactArgs, ExternalDocsArgs, ImplicitFlowArgs, LicenseArgs,
    MetaArgs, OAuth2Args, SecuritySchemesArgs, ServerArgs, TagArgs,
};
use resty::openapi::{
    ComponentType, ContentlessResponse, OrRef, ReferenceObject, Response, Schema, SchemaType,
    SecurityScheme, Specification,
};
use resty::paths::{
    add_path, parameter, parse_route, request_body, request_schema, response, security, PathArgs,
    ResponseType,
};
use resty::responses::{declare_response, ResponseArgs};
use resty::schema::{
    declare_enum_schema, declare_schema, declare_struct_schema, lowercase_first_letter,
    path_to_property_type, FieldInfo, FieldType, PathSegment, PropertyArgs, SchemaArgs,
    SchemaData, SchemaError, SchemaInput, TypePath, VariantArgs, VariantInfo,
};

fn s(x: &str) -> String {
    x.to_string()
}

fn path(names: &[&str]) -> TypePath {
    // Each name's inner type is the next name.
    let mut inner: Option<TypePath> = None;
    for name in names.iter().rev() {
        inner = Some(TypePath { segments: vec![PathSegment { ident: s(name), inner }] });
    }
    inner.unwrap()
}

fn no_args() -> PropertyArgs {
    PropertyArgs { example: None, format: None, reference: None, description: None, required: false }
}

fn field(name: Option<&str>, ty: &[&str], args: PropertyArgs) -> FieldInfo {
    FieldInfo { ident: name.map(s), ty: FieldType::Path(path(ty)), args: Ok(args) }
}

fn ops_keys(spec: &StrMap<resty::openapi::PathItem>, key: &str) -> Vec<String> {
    let item = spec.get(key).unwrap();
    let mut keys: Vec<String> = item.operations.entries().iter().map(|e| e.0.clone()).collect();
    keys.sort();
    keys
}

#[test]
fn reference_paths() {
    let r = ReferenceObject::schema(s("Pet"));
    assert_eq!(r.ref_path(), "#/components/schemas/Pet");
    let r = ReferenceObject::response(s("PetList"));
    assert_eq!(r.ref_path(), "#/components/responses/PetList");
}

#[test]
fn property_type_of_option_of_vec_of_string() {
    let t = path_to_property_type(&path(&["Option", "Vec", "String"]), Some(s("email"))).unwrap();
    match t {
        OrRef::Val(SchemaType::Array(a)) => match *a.items {
            OrRef::Val(SchemaType::Primitive(p)) => {
                assert_eq!(p.ty, "string");
                assert_eq!(p.format, Some(s("email")));
            }
            _ => panic!("expected a primitive item"),
        },
        _ => panic!("expected an array"),
    }
}

#[test]
fn numbers_take_only_the_given_format() {
    for name in ["i32", "i64", "f32", "f64"] {
        match path_to_property_type(&path(&[name]), None).unwrap() {
            OrRef::Val(SchemaType::Primitive(p)) => {
                assert_eq!(p.ty, "number");
                assert_eq!(p.format, None);
            }
            _ => panic!("expected a primitive"),
        }
    }
    match path_to_property_type(&path(&["bool"]), Some(s("flag"))).unwrap() {
        OrRef::Val(SchemaType::Primitive(p)) => {
            assert_eq!(p.ty, "boolean");
            assert_eq!(p.format, Some(s("flag")));
        }
        _ => panic!("expected a primitive"),
    }
}

#[test]
fn other_names_are_references() {
    match path_to_property_type(&path(&["Vec", "Category"]), None).unwrap() {
        OrRef::Val(SchemaType::Array(a)) => match *a.items {
            OrRef::Ref(r) => {
                assert_eq!(r.name, "Category");
                assert!(matches!(r.component, ComponentType::Schema));
            }
            _ => panic!("expected a reference"),
        },
        _ => panic!("expected an array"),
    }
}

#[test]
fn path_errors() {
    let bare = TypePath { segments: vec![PathSegment { ident: s("Option"), inner: None }] };
    assert!(matches!(path_to_property_type(&bare, None), Err(SchemaError::MissingInnerType)));
    let empty = TypePath { segments: vec![] };
    assert!(matches!(path_to_property_type(&empty, None), Err(SchemaError::EmptyPath)));
    let nested = TypePath {
        segments: vec![PathSegment { ident: s("Vec"), inner: Some(TypePath { segments: vec![] }) }],
    };
    assert!(matches!(path_to_property_type(&nested, None), Err(SchemaError::EmptyPath)));
}

#[test]
fn struct_schema_properties_and_required() {
    let mut req = no_args();
    req.required = true;
    req.description = Some(s("the name"));
    let mut reference = no_args();
    reference.reference = Some(s("Tag"));
    let fields = vec![
        field(Some("name"), &["String"], req),
        field(Some("age"), &["Option", "i64"], no_args()),
        field(Some("category"), &["Category"], no_args()),
        field(Some("tag"), &["String"], reference),
        field(None, &["bool"], no_args()),
    ];
    let st = declare_struct_schema(fields).unwrap();
    assert_eq!(st.required, vec![s("name"), s("4")]);
    let props = &st.properties;
    match props.get("name").unwrap() {
        OrRef::Val(Schema { description, ty: SchemaType::Primitive(p), .. }) => {
            assert_eq!(description.as_deref(), Some("the name"));
            assert_eq!(p.ty, "string");
        }
        _ => panic!("expected a string property"),
    }
    assert!(matches!(props.get("category").unwrap(), OrRef::Ref(r) if r.name == "Category"));
    assert!(matches!(props.get("tag").unwrap(), OrRef::Ref(r) if r.name == "Tag"));
    assert!(matches!(props.get("4").unwrap(), OrRef::Val(_)));
    assert!(!props.contains_key("5"));
    let keys: Vec<&str> = props.entries().iter().map(|e| e.0.as_str()).collect();
    assert_eq!(keys, vec!["4", "age", "category", "name", "tag"]);
}

#[test]
fn map_entries_come_in_key_order() {
    let mut m: StrMap<u8> = StrMap::new();
    for (k, v) in [("b", 1), ("a", 2), ("c", 3), ("ab", 4), ("", 5), ("B", 6)] {
        assert_eq!(m.insert(s(k), v), None);
    }
    assert_eq!(m.insert(s("a"), 7), Some(2));
    m.insert_if_absent(s("a"), 8);
    m.insert_if_absent(s("d"), 9);
    let entries: Vec<(&str, u8)> = m.entries().iter().map(|e| (e.0.as_str(), e.1)).collect();
    assert_eq!(entries, vec![("", 5), ("B", 6), ("a", 7), ("ab", 4), ("b", 1), ("c", 3), ("d", 9)]);
    assert_eq!(m.take("ab"), Some(4));
    let keys: Vec<&str> = m.entries().iter().map(|e| e.0.as_str()).collect();
    assert_eq!(keys, vec!["", "B", "a", "b", "c", "d"]);
}

#[test]
fn key_order_is_that_of_str() {
    for (a, b) in [("a", "b"), ("a", "ab"), ("", "a"), ("Z", "a"), ("z", "é"), ("ab", "b")] {
        assert!(key_less(a, b));
        assert!(!key_less(b, a));
        assert_eq!(key_less(a, b), a < b);
    }
    assert!(!key_less("same", "same"));
}

#[test]
fn option_fields_are_optional() {
    let fields = vec![field(Some("a"), &["Option", "String"], no_args()), field(Some("b"), &["String"], no_args())];
    let st = declare_struct_schema(fields).unwrap();
    assert_eq!(st.required, vec![s("b")]);
    assert_eq!(st.properties.entries().len(), 2);
    for name in ["a", "b"] {
        match st.properties.get(name).unwrap() {
            OrRef::Val(Schema { example: None, description: None, ty: SchemaType::Primitive(p) }) => {
                assert_eq!(p.ty, "string");
                assert_eq!(p.format, None);
            }
            _ => panic!("expected a string property"),
        }
    }
}

#[test]
fn struct_schema_errors_are_all_reported_in_order() {
    let fields = vec![
        FieldInfo { ident: Some(s("a")), ty: FieldType::Other, args: Ok(no_args()) },
        field(Some("b"), &["String"], no_args()),
        FieldInfo { ident: Some(s("c")), ty: FieldType::Path(path(&["String"])), args: Err(s("bad attribute")) },
        FieldInfo {
            ident: Some(s("d")),
            ty: FieldType::Path(TypePath { segments: vec![PathSegment { ident: s("Vec"), inner: None }] }),
            args: Ok(no_args()),
        },
    ];
    let errors = declare_struct_schema(fields).err().unwrap();
    assert_eq!(errors.len(), 3);
    assert_eq!(errors[0].message(), "Only Path types are supported for Schemas");
    assert_eq!(errors[1].message(), "bad attribute");
    assert_eq!(errors[2].message(), "expected an inner type");
}

#[test]
fn lowercase_first_letter_examples() {
    assert_eq!(lowercase_first_letter("Available"), "available");
    assert_eq!(lowercase_first_letter(""), "");
    assert_eq!(lowercase_first_letter("ÉTÉ"), "éTÉ");
    assert_eq!(lowercase_first_letter("İx"), "i\u{307}x");
}

#[test]
fn enum_schema_values_and_example() {
    let variants = vec![
        VariantInfo { ident: s("Available"), attr: None },
        VariantInfo {
            ident: s("Sold"),
            attr: Some(Ok(VariantArgs { repr: Some(s("sold_out")), example: true })),
        },
        VariantInfo { ident: s("Pending"), attr: Some(Ok(VariantArgs { repr: None, example: true })) },
    ];
    let e = declare_enum_schema(variants).unwrap();
    assert_eq!(e.ty, "string");
    assert_eq!(e.variants, vec![s("available"), s("sold_out"), s("pending")]);
    assert_eq!(e.example, Some(s("pending")));

    let bad = vec![
        VariantInfo { ident: s("A"), attr: Some(Err(s("first"))) },
        VariantInfo { ident: s("B"), attr: Some(Err(s("second"))) },
    ];
    let errors = declare_enum_schema(bad).err().unwrap();
    assert_eq!(errors.iter().map(|e| e.message()).collect::<Vec<_>>(), vec![s("first"), s("second")]);
}

fn pet_input(description: &str) -> SchemaInput {
    SchemaInput {
        ident: s("Pet"),
        data: SchemaData::Struct(vec![field(Some("name"), &["String"], no_args())]),
        args: Ok(SchemaArgs { name: None, description: Some(s(description)) }),
    }
}

#[test]
fn declaring_a_schema_twice() {
    let mut schemas: StrMap<Schema> = StrMap::new();
    assert!(declare_schema(&mut schemas, pet_input("first"), true).is_ok());
    assert!(schemas.contains_key("Pet"));
    // Without the description being written out, a second declaration is accepted.
    assert!(declare_schema(&mut schemas, pet_input("second"), false).is_ok());
    assert_eq!(schemas.get("Pet").unwrap().description.as_deref(), Some("second"));
    // Where it is written out, it is refused, but the schema is replaced.
    let errors = declare_schema(&mut schemas, pet_input("third"), true).err().unwrap();
    assert_eq!(errors.len(), 1);
    assert_eq!(errors[0].message(), "duplicate schema name");
    assert_eq!(schemas.get("Pet").unwrap().description.as_deref(), Some("third"));
}

#[test]
fn declaring_a_schema_under_another_name_or_failing() {
    let mut schemas: StrMap<Schema> = StrMap::new();
    let input = SchemaInput {
        ident: s("Status"),
        data: SchemaData::Enum(vec![VariantInfo { ident: s("Open"), attr: None }]),
        args: Ok(SchemaArgs { name: Some(s("PetStatus")), description: None }),
    };
    assert!(declare_schema(&mut schemas, input, true).is_ok());
    assert!(schemas.contains_key("PetStatus"));
    assert!(!schemas.contains_key("Status"));
    assert!(matches!(&schemas.get("PetStatus").unwrap().ty, SchemaType::Enum(e) if e.variants == vec![s("open")]));

    let union = SchemaInput { ident: s("U"), data: SchemaData::Union, args: Ok(SchemaArgs { name: None, description: None }) };
    let errors = declare_schema(&mut schemas, union, true).err().unwrap();
    assert_eq!(errors[0].message(), "unions are not supported for schemas");
    let bad_args = SchemaInput {
        ident: s("V"),
        data: SchemaData::Struct(vec![]),
        args: Err(s("unknown argument")),
    };
    let errors = declare_schema(&mut schemas, bad_args, true).err().unwrap();
    assert_eq!(errors[0].message(), "unknown argument");
    assert!(!schemas.contains_key("U") && !schemas.contains_key("V"));
}

#[test]
fn route_parsing() {
    assert_eq!(parse_route("/pet/[id]/"), vec![s("pet"), s("[id]")]);
    assert_eq!(parse_route("user"), vec![s("user")]);
    assert_eq!(parse_route(""), vec![s("")]);
    assert_eq!(parse_route("///"), vec![s("")]);
    assert_eq!(parse_route("a//b"), vec![s("a"), s(""), s("b")]);
}

fn path_args(route: &[&str], methods: &[&str]) -> PathArgs {
    PathArgs {
        route: route.iter().map(|x| s(x)).collect(),
        methods: methods.iter().map(|x| s(x)).collect(),
        tags: vec![s("pet")],
        summary: Some(s("Find a pet")),
        description: None,
        request_body: Some(request_body(
            Some(s("the pet")),
            true,
            vec![(s("application/json"), s("Pet")), (s("application/json"), s("NewPet"))],
        )),
        parameters: vec![parameter(s("id"), s("path"), None, true, false, s("PetId"))],
        responses: vec![
            response(s("200"), ResponseType::Ref(s("Pet"))),
            response(s("404"), ResponseType::Contentless(s("not found"))),
            response(s("200"), ResponseType::Array(s("Pet"))),
        ],
        security: vec![security(s("petstore_auth"), vec![s("read:pets")])],
    }
}

#[test]
fn adding_a_path() {
    let mut paths = StrMap::new();
    add_path(&mut paths, path_args(&["pet", "[id]"], &["GET", "Post"]));
    assert_eq!(ops_keys(&paths, "/pet/[id]"), vec![s("get"), s("post")]);
    let item = paths.get("/pet/[id]").unwrap();
    let get = item.operations.get("get").unwrap();
    assert_eq!(get.operation_id, "getpet_[id]");
    assert_eq!(item.operations.get("post").unwrap().operation_id, "postpet_[id]");
    assert_eq!(get.tags, vec![s("pet")]);
    assert_eq!(get.summary.as_deref(), Some("Find a pet"));
    assert_eq!(get.parameters.len(), 1);
    assert_eq!(get.parameters[0].schema.ref_path(), "#/components/schemas/PetId");
    // A later response for the same code wins.
    match get.responses.get("200").unwrap() {
        OrRef::Ref(r) => assert_eq!(r.ref_path(), "#/components/responses/autogen__PetArray"),
        _ => panic!("expected a reference"),
    }
    assert!(matches!(get.responses.get("404").unwrap(), OrRef::Val(ContentlessResponse { description }) if description == "not found"));
    // A later schema for the same content type wins.
    let body = get.request_body.as_ref().unwrap();
    assert_eq!(body.content.get("application/json").unwrap().schema.name, "NewPet");
    assert_eq!(get.security[0].name, "petstore_auth");
    assert_eq!(get.security[0].scopes, vec![s("read:pets")]);

    // A second declaration on the same route adds its methods.
    add_path(&mut paths, path_args(&["pet", "[id]"], &["delete"]));
    assert_eq!(ops_keys(&paths, "/pet/[id]"), vec![s("delete"), s("get"), s("post")]);
    add_path(&mut paths, path_args(&[""], &["GET"]));
    assert_eq!(paths.get("/").unwrap().operations.get("get").unwrap().operation_id, "get");
}

#[test]
fn declared_route_path_is_slash_and_trimmed_route() {
    let mut paths = StrMap::new();
    add_path(&mut paths, path_args(&parse_route("//store/order/")
        .iter().map(|x| x.as_str()).collect::<Vec<_>>(), &["GET"]));
    assert!(paths.contains_key("/store/order"));
}

#[test]
fn request_schema_and_response_builders() {
    let (ct, r) = request_schema(s("application/xml"), s("Order"));
    assert_eq!(ct, "application/xml");
    assert_eq!(r.schema.ref_path(), "#/components/schemas/Order");
    let (code, r) = response(s("201"), ResponseType::Ref(s("Created")));
    assert_eq!(code, "201");
    assert!(matches!(r, OrRef::Ref(x) if x.ref_path() == "#/components/responses/Created"));
}

fn response_args(description: &str) -> ResponseArgs {
    ResponseArgs {
        content_types: vec![s("application/json"), s("application/xml")],
        schema: None,
        description: s(description),
    }
}

#[test]
fn declaring_responses() {
    let mut responses: StrMap<Response> = StrMap::new();
    declare_response(&mut responses, s("Pet"), response_args("a pet"));
    let single = responses.get("Pet").unwrap();
    assert_eq!(single.description, "a pet");
    assert!(matches!(&single.content.get("application/xml").unwrap().schema, OrRef::Ref(r) if r.name == "Pet"));
    let list = responses.get("autogen__PetArray").unwrap();
    match &list.content.get("application/json").unwrap().schema {
        OrRef::Val(Schema { ty: SchemaType::Array(a), description: None, example: None }) => {
            assert!(matches!(&*a.items, OrRef::Ref(r) if r.ref_path() == "#/components/schemas/Pet"))
        }
        _ => panic!("expected a list"),
    }
    // A second declaration changes nothing.
    declare_response(&mut responses, s("Pet"), response_args("another"));
    assert_eq!(responses.get("Pet").unwrap().description, "a pet");
    assert_eq!(responses.entries().len(), 2);
    // A schema name replaces the type's name.
    let mut args = response_args("orders");
    args.schema = Some(s("OrderList"));
    declare_response(&mut responses, s("Order"), args);
    assert!(responses.contains_key("OrderList"));
    assert!(responses.contains_key("autogen__OrderListArray"));
    assert!(!responses.contains_key("Order"));
}

#[test]
fn applying_meta() {
    let mut spec = Specification::new();
    let args = MetaArgs {
        title: Some(s("Petstore")),
        description: None,
        terms_of_service: Some(s("tos")),
        contact: Some(ContactArgs { email: Some(s("a@b.c")) }),
        license: Some(LicenseArgs { name: s("MIT"), url: None }),
        version: Some(s("1.0")),
        servers: vec![ServerArgs { url: s("https://petstore.io"), description: None }],
        tags: vec![TagArgs {
            name: s("pet"),
            description: Some(s("pets")),
            external_docs: Some(ExternalDocsArgs { description: None, url: s("https://docs") }),
        }],
        security_schemes: Some(SecuritySchemesArgs {
            api_keys: vec![
                ApiKeyArgs { name: s("api_key"), is_in: s("header") },
                ApiKeyArgs { name: s("auth"), is_in: s("query") },
            ],
            oauth2: vec![OAuth2Args {
                name: s("auth"),
                implicit: Some(ImplicitFlowArgs {
                    authorization_url: s("https://auth"),
                    scopes: vec![(s("read"), s("read it")), (s("read"), s("read all"))],
                }),
            }],
        }),
        external_docs: None,
    };
    apply_meta(&mut spec, args);
    assert_eq!(spec.info.title.as_deref(), Some("Petstore"));
    assert_eq!(spec.info.contact.as_ref().unwrap().email.as_deref(), Some("a@b.c"));
    assert!(spec.info.contact.as_ref().unwrap().name.is_none());
    assert_eq!(spec.info.license.as_ref().unwrap().name, "MIT");
    assert_eq!(spec.servers[0].url, "https://petstore.io");
    assert!(spec.servers[0].variables.is_empty());
    assert_eq!(spec.tags[0].external_docs.as_ref().unwrap().url, "https://docs");
    let schemes = &spec.components.security_schemes;
    assert!(matches!(schemes.get("api_key").unwrap(), SecurityScheme::ApiKey(k) if k.is_in == "header"));
    // The OAuth2 scheme comes after the API keys and wins over the one of the same name.
    match schemes.get("auth").unwrap() {
        SecurityScheme::OAuth2(o) => {
            let flow = o.flows.implicit.as_ref().unwrap();
            assert_eq!(flow.authorization_url, "https://auth");
            assert_eq!(flow.scopes.get("read").unwrap(), "read all");
        }
        _ => panic!("expected OAuth2"),
    }
    assert_eq!(schemes.entries().len(), 2);

    // Applying a meta argument that says nothing clears what was set.
    let empty = MetaArgs {
        title: None,
        description: None,
        terms_of_service: None,
        contact: None,
        license: None,
        version: None,
        servers: vec![],
        tags: vec![],
        security_schemes: None,
        external_docs: None,
    };
    apply_meta(&mut spec, empty);
    assert!(spec.info.title.is_none() && spec.tags.is_empty() && spec.servers.is_empty());
    assert!(spec.components.security_schemes.is_empty());
}

#[test]
fn string_maps() {
    let mut m: StrMap<u32> = StrMap::new();
    assert!(m.is_empty());
    assert_eq!(m.insert(s("a"), 1), None);
    assert_eq!(m.insert(s("b"), 2), None);
    assert_eq!(m.insert(s("a"), 3), Some(1));
    assert_eq!(m.get("a"), Some(&3));
    m.insert_if_absent(s("a"), 9);
    m.insert_if_absent(s("c"), 4);
    assert_eq!(m.get("a"), Some(&3));
    assert_eq!(m.get("c"), Some(&4));
    assert_eq!(m.take("b"), Some(2));
    assert_eq!(m.get("b"), None);
    assert_eq!(m.take("b"), None);
    let f = StrMap::from_pairs(vec![(s("x"), 1u32), (s("y"), 2), (s("x"), 3)]);
    assert_eq!(f.get("x"), Some(&3));
    assert_eq!(f.into_entries().len(), 2);
}
