use resty::args::{
    check_handler_signature, optional_argument, paired_arguments, repeatable_argument, required_argument, ArgError,
    MacroArgument, MacroArgumentType, SignatureError,
};
use resty::decl::{all_ok, collect_errors, combine_errors, decl_content, indent, Declarations, Endpoint};
use resty::files::{
    base_path, default_route, endpoint_path, file_in_router, is_endpoint_file, module_ident, router_for, RouterEntry,
};
use resty::http_error::{code_from_ident, http_error_reason};
use resty::Error;

fn s(x: &str) -> String {
    x.to_string()
}

#[test]
fn collecting_errors() {
    let rs: Vec<Result<u8, &str>> = vec![Ok(1), Err("a"), Ok(2), Err("b")];
    let (values, errors) = collect_errors(rs);
    assert_eq!(values, vec![1, 2]);
    assert_eq!(errors, vec!["a", "b"]);
    assert_eq!(combine_errors(Vec::<u8>::new()), Ok(()));
    assert_eq!(combine_errors(vec![3u8, 4]), Err(vec![3, 4]));
    assert_eq!(all_ok(vec![Ok::<u8, u8>(1), Ok(2)]), Ok(vec![1, 2]));
    assert_eq!(all_ok(vec![Ok::<u8, u8>(1), Err(7), Err(8)]), Err(vec![7, 8]));
}

#[test]
fn indenting() {
    assert_eq!(indent(s("a\nb")), "  a\n  b");
    assert_eq!(indent(s("a\r\nb\n")), "  a\n  b");
    assert_eq!(indent(s("")), "");
    assert_eq!(indent(s("\n")), "  ");
}

fn endpoint() -> Endpoint {
    Endpoint {
        path: vec![s("users"), s("%param")],
        method: s("GET"),
        request: s("void"),
        response: s("User"),
        error: s("void"),
    }
}

#[test]
fn endpoint_text() {
    assert_eq!(
        endpoint().text(),
        "{\n  \"path\": [\"/users\", \"%param\"],\n  \"method\": \"GET\",\n  \"request\": \"void\",\n  \"response\": \"User\",\n  \"error\": \"void\"\n}"
    );
}

#[test]
fn struct_registration() {
    let mut d = Declarations::new();
    d.register_struct("User", &vec![(Some(s("name")), s("String")), (None, s("u32"))]);
    d.register_struct("Empty", &vec![]);
    assert_eq!(d.structs[0], "{\"User\": [[\"name\", \"String\"],[\"1\", \"u32\"]]}");
    assert_eq!(d.structs[1], "{\"Empty\": []}");
}

#[test]
fn declaration_file() {
    let mut d = Declarations::new();
    assert_eq!(d.write_decl(false), None);
    d.register_struct("A", &vec![(Some(s("x")), s("i32"))]);
    d.register_endpoint(endpoint());
    let expected = "{\n  \"structs\":   [\n    {\"A\": [[\"x\", \"i32\"]]}\n  ],\n  \"endpoints\":   [\n    {\n      \"path\": [\"/users\", \"%param\"],\n      \"method\": \"GET\",\n      \"request\": \"void\",\n      \"response\": \"User\",\n      \"error\": \"void\"\n    }\n  ]\n}";
    assert_eq!(decl_content(&d.structs, &d.endpoints), expected);
    assert_eq!(d.write_decl(true).as_deref(), Some(expected));
}

#[test]
fn argument_types() {
    assert_eq!(MacroArgumentType::try_from("Method"), Ok(MacroArgumentType::Method));
    assert_eq!(MacroArgumentType::try_from("method"), Err(ArgError::UnknownArgument));
    assert_eq!(MacroArgumentType::Path.bits(), 1);
    assert_eq!(MacroArgumentType::Description.bits(), 128);
    assert_eq!(MacroArgumentType::Path.bitor(MacroArgumentType::Method), 5);
    assert_eq!(MacroArgumentType::Header.bitor_mask(5), 13);
    let all = [
        MacroArgumentType::Path,
        MacroArgumentType::Router,
        MacroArgumentType::Method,
        MacroArgumentType::Header,
        MacroArgumentType::Accepts,
        MacroArgumentType::Responds,
        MacroArgumentType::Summary,
        MacroArgumentType::Description,
    ];
    for a in all {
        assert_eq!(MacroArgumentType::try_from(&format!("{a:?}")), Ok(a));
        for b in all {
            if a != b {
                assert_eq!(a.bits() & b.bits(), 0);
            }
        }
        assert!(a.bits() & a.bitor_mask(0x100) != 0);
    }
}

#[test]
fn validating_arguments() {
    let mask = MacroArgumentType::Method.bitor(MacroArgumentType::Path);
    let ok: MacroArgument<u8> = MacroArgument::Single(s("Path"), 1);
    assert!(ok.validate(mask).is_ok());
    let invalid: MacroArgument<u8> = MacroArgument::Single(s("Header"), 1);
    assert_eq!(invalid.validate(mask).err(), Some(ArgError::InvalidArgument));
    let unknown: MacroArgument<u8> = MacroArgument::List(s("Foo"), vec![]);
    assert_eq!(unknown.validate(mask).err(), Some(ArgError::UnknownArgument));
}

#[test]
fn argument_values() {
    let single: MacroArgument<u8> = MacroArgument::Single(s("Path"), 7);
    assert_eq!(single.single(), Ok(&7));
    assert_eq!(single.ident(), "Path");
    let one: MacroArgument<u8> = MacroArgument::List(s("Path"), vec![8]);
    assert_eq!(one.single(), Ok(&8));
    let none: MacroArgument<u8> = MacroArgument::List(s("Path"), vec![]);
    assert_eq!(none.single().err().unwrap().message(), "Expected a single parameter, got an empty list");
    let two: MacroArgument<u8> = MacroArgument::List(s("Header"), vec![1, 2]);
    assert_eq!(two.single().err(), Some(ArgError::NotSingle));
    assert_eq!(two.pair(), Ok((&1, &2)));
    assert_eq!(two.count(), 2);
    assert_eq!(two.list(), vec![&1, &2]);
    assert_eq!(single.list(), vec![&7]);
    let three: MacroArgument<u8> = MacroArgument::List(s("Header"), vec![1, 2, 3]);
    assert_eq!(three.pair().err().unwrap().message(), "Expected 2 arguments, got 3");
    assert_eq!(single.pair().err(), Some(ArgError::WrongCount(1)));
}

#[test]
fn selecting_arguments() {
    let args: Vec<MacroArgument<u8>> = vec![
        MacroArgument::Single(s("Method"), 1),
        MacroArgument::Single(s("Header"), 2),
        MacroArgument::Single(s("Header"), 3),
        MacroArgument::Single(s("Header"), 4),
    ];
    assert_eq!(repeatable_argument(&args, "Header"), vec![1, 2, 3]);
    assert_eq!(optional_argument(&args, "Method"), Ok(Some(0)));
    assert_eq!(optional_argument(&args, "Path"), Ok(None));
    let errors = optional_argument(&args, "Header").err().unwrap();
    assert_eq!(errors.len(), 2);
    assert_eq!(errors[0].message(), "Expected at most one `Header` parameter");
    assert_eq!(required_argument(&args, "Method"), Ok(0));
    let missing = required_argument(&args, "Router").err().unwrap();
    assert_eq!(missing[0].message(), "Missing required argument: Router");
}

#[test]
fn file_routing_names() {
    assert_eq!(base_path("./api"), "api");
    assert_eq!(base_path("/api"), "api");
    assert_eq!(base_path(".//api"), "api");
    assert_eq!(base_path("//api"), "/api");
    assert_eq!(base_path("api"), "api");
    assert_eq!(module_ident("users/[id].rs"), "__endpoint_users_id_");
    assert_eq!(module_ident("store/%404.rs"), "__endpoint_store_404");
    assert_eq!(module_ident("a.rs["), "__endpoint_a");
    assert_eq!(endpoint_path("pet/mod.rs"), "pet");
    assert_eq!(endpoint_path("pet/[id].rs"), "pet/[id]");
    assert_eq!(endpoint_path("mod.rs"), "");
    assert_eq!(default_route("pet/[id].rs"), vec![s("pet"), s("[id]")]);
    assert_eq!(default_route("pet/mod.rs"), vec![s("pet")]);
}

#[test]
fn endpoint_files() {
    assert!(is_endpoint_file("users/[id].rs"));
    assert!(is_endpoint_file("a.rs["));
    assert!(is_endpoint_file("store/%404.rs"));
    assert!(!is_endpoint_file("notes.txt"));
    assert!(!is_endpoint_file("rs"));
    assert!(!is_endpoint_file(""));
}

#[test]
fn handler_signatures() {
    assert_eq!(check_handler_signature(0, 2), Err(SignatureError::NoLifetime));
    assert_eq!(check_handler_signature(0, 0), Err(SignatureError::NoLifetime));
    assert_eq!(check_handler_signature(1, 1), Err(SignatureError::NoRequestResponse));
    assert_eq!(check_handler_signature(1, 2), Ok(()));
    assert_eq!(check_handler_signature(2, 3), Ok(()));
    assert_eq!(SignatureError::NoLifetime.message(), "Expected a lifetime parameter");
    assert_eq!(SignatureError::NoRequestResponse.message(), "Expected Request and Response arguments");
}

#[test]
fn responds_arguments_are_pairs() {
    let good: Vec<MacroArgument<u8>> = vec![
        MacroArgument::List(s("Responds"), vec![200, 1]),
        MacroArgument::Single(s("Route"), 0),
        MacroArgument::List(s("Responds"), vec![44, 2]),
    ];
    assert_eq!(paired_arguments(&good, "Responds").ok(), Some(vec![0, 2]));
    let bad: Vec<MacroArgument<u8>> = vec![
        MacroArgument::List(s("Responds"), vec![200, 1]),
        MacroArgument::List(s("Responds"), vec![200]),
        MacroArgument::Single(s("Route"), 0),
        MacroArgument::List(s("Responds"), vec![1, 2, 3]),
    ];
    let errs = paired_arguments(&bad, "Responds").err().unwrap();
    assert_eq!(errs, vec![ArgError::WrongCount(1), ArgError::WrongCount(3)]);
    assert_eq!(errs[0].message(), "Expected 2 arguments, got 1");
    let none: Vec<MacroArgument<u8>> = vec![];
    assert_eq!(paired_arguments(&none, "Responds").ok(), Some(vec![]));
}

#[test]
fn a_method_is_required() {
    let none: Vec<MacroArgument<u8>> = vec![MacroArgument::Single(s("Route"), 1)];
    let errs = required_argument(&none, "Method").err().unwrap();
    assert_eq!(errs.len(), 1);
    assert_eq!(errs[0].message(), "Missing required argument: Method");
    let one: Vec<MacroArgument<u8>> = vec![MacroArgument::List(s("Method"), vec![1, 2])];
    assert_eq!(required_argument(&one, "Method").ok(), Some(0));
}

#[test]
fn http_error_codes() {
    assert_eq!(code_from_ident("HttpError404"), 404);
    assert_eq!(code_from_ident("HttpError511"), 511);
    assert_eq!(code_from_ident("HttpErrorABC"), 0);
    assert_eq!(code_from_ident("x+12"), 12);
    assert_eq!(code_from_ident("abc"), 0);
    assert_eq!(http_error_reason(404), Some("Not Found"));
    assert_eq!(http_error_reason(418), Some("I'm a teapot"));
    assert_eq!(http_error_reason(200), None);
}

#[test]
fn error_messages() {
    assert_eq!(Error::StateError.message(), "StateError");
    assert_eq!(Error::ParseError(s("bad json")).message(), "ParseError(bad json)");
    assert_eq!(Error::WriteError(s("closed")).message(), "WriteError(closed)");
    assert_eq!(Error::UnTypedRequest.message(), "UnTypedRequest");
}

fn parts(p: &str) -> Vec<String> {
    p.split('/').map(s).collect()
}

#[test]
fn routers_by_directory() {
    let routers = vec![
        RouterEntry { basepath: None, ident: s("MANUAL") },
        RouterEntry { basepath: Some(parts("src/api")), ident: s("API") },
        RouterEntry { basepath: Some(parts("src")), ident: s("ALL") },
    ];
    assert_eq!(router_for(&routers, &parts("src/api/pet/mod.rs")), Some(1));
    assert_eq!(router_for(&routers, &parts("src/apix/a.rs")), Some(2));
    assert_eq!(router_for(&routers, &parts("other/a.rs")), None);
    assert_eq!(file_in_router(&routers, &parts("src/api/pet/[id].rs")).as_deref(), Some("pet/[id].rs"));
    assert_eq!(file_in_router(&routers, &parts("lib/x.rs")), None);
}
