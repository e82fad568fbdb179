//! Declaring a response type among the description's response components:
//! the response itself and the response that lists values of it.
use vstd::prelude::*;

use crate::map::StrMap;
use crate::openapi::{
    ArraySchema, ComponentType, Content, OrRef, ReferenceObject, Response, Schema, SchemaType,
};
use crate::paths::{array_response, array_response_name};
use crate::text::string_views;

verus! {

/// What the `response` attribute of a type says of its description.
pub struct ResponseArgs {
    /// The content types the response is sent in.
    pub content_types: Vec<String>,
    /// The name of the schema, when it is not the type's.
    pub schema: Option<String>,
    pub description: String,
}

/// Whether `c` gives, for each of the content types, the schema component
/// `ident`.
pub open spec fn content_of_refs(c: Map<Seq<char>, Content>, cts: Seq<String>, ident: String) -> bool {
    &&& forall|k: Seq<char>| #[trigger] c.dom().contains(k) <==> string_views(cts).contains(k)
    &&& forall|k: Seq<char>|
        #[trigger] c.dom().contains(k) ==> c[k].schema == OrRef::<Schema>::Ref(
            ReferenceObject { component: ComponentType::Schema, name: ident },
        )
}

/// Whether `s` is a list of values of the schema component `ident`.
pub open spec fn is_list_of(s: Schema, ident: String) -> bool {
    &&& s.description is None
    &&& s.example is None
    &&& s.ty matches SchemaType::Array(a) && *a.items == OrRef::<SchemaType>::Ref(
        ReferenceObject { component: ComponentType::Schema, name: ident },
    )
}

/// Whether `c` gives, for each of the content types, a list of values of
/// the schema component `ident`.
pub open spec fn content_of_lists(c: Map<Seq<char>, Content>, cts: Seq<String>, ident: String) -> bool {
    &&& forall|k: Seq<char>| #[trigger] c.dom().contains(k) <==> string_views(cts).contains(k)
    &&& forall|k: Seq<char>|
        #[trigger] c.dom().contains(k) ==> (c[k].schema matches OrRef::Val(s) && is_list_of(
            s,
            ident,
        ))
}

/// The name a response is declared under.
pub open spec fn response_name(ident: String, args: ResponseArgs) -> Seq<char> {
    match args.schema {
        Some(n) => n@,
        None => ident@,
    }
}

fn content_map(cts: &Vec<String>, ident: &String, list: bool) -> (c: StrMap<Content>)
    ensures
        list ==> content_of_lists(c.as_map(), cts@, *ident),
        !list ==> content_of_refs(c.as_map(), cts@, *ident),
{
    let mut c: StrMap<Content> = StrMap::new();
    let mut i: usize = 0;
    while i < cts.len()
        invariant
            i <= cts@.len(),
            list ==> content_of_lists(c.as_map(), cts@.take(i as int), *ident),
            !list ==> content_of_refs(c.as_map(), cts@.take(i as int), *ident),
        decreases cts@.len() - i,
    {
        let r = ReferenceObject::schema(ident.clone());
        let schema = if list {
            OrRef::Val(
                Schema {
                    description: None,
                    example: None,
                    ty: SchemaType::Array(ArraySchema { items: Box::new(OrRef::Ref(r)) }),
                },
            )
        } else {
            OrRef::Ref(r)
        };
        let ghost before = c.as_map();
        c.insert(cts[i].clone(), Content { schema });
        proof {
            let s0 = string_views(cts@.take(i as int));
            let s1 = string_views(cts@.take(i + 1));
            assert(s1 =~= s0.push(cts@[i as int]@));
            assert forall|k: Seq<char>| #[trigger] c.as_map().dom().contains(k) <==> s1.contains(k) by {
                if s0.contains(k) {
                    let w = choose|w: int| 0 <= w < s0.len() && #[trigger] s0[w] == k;
                    assert(s1[w] == k);
                }
                if k == cts@[i as int]@ {
                    assert(s1[i as int] == k);
                }
                if s1.contains(k) && k != cts@[i as int]@ {
                    let w = choose|w: int| 0 <= w < s1.len() && #[trigger] s1[w] == k;
                    assert(s0[w] == k);
                }
            }
        }
        i = i + 1;
    }
    assert(cts@.take(cts@.len() as int) =~= cts@);
    c
}

/// Whether `new_map` is what declaring the response `ident` with `args`
/// makes of `old_map`.
pub open spec fn declares_response(
    old_map: Map<Seq<char>, Response>,
    new_map: Map<Seq<char>, Response>,
    ident: String,
    args: ResponseArgs,
) -> bool {
    let name = response_name(ident, args);
    let list = array_response_name(name);
    &&& new_map == old_map.insert(list, new_map[list]).insert(name, new_map[name])
    &&& old_map.dom().contains(list) ==> new_map[list] == old_map[list]
    &&& !old_map.dom().contains(list) ==> new_map[list].description == args.description
        && content_of_lists(new_map[list].content.as_map(), args.content_types@, ident)
    &&& old_map.dom().contains(name) ==> new_map[name] == old_map[name]
    &&& !old_map.dom().contains(name) ==> new_map[name].description == args.description
        && content_of_refs(new_map[name].content.as_map(), args.content_types@, ident)
}

/// Declaring a response a second time changes nothing.
pub proof fn law_declare_response_idempotent(
    m0: Map<Seq<char>, Response>,
    m1: Map<Seq<char>, Response>,
    m2: Map<Seq<char>, Response>,
    ident: String,
    args: ResponseArgs,
)
    requires
        declares_response(m0, m1, ident, args),
        declares_response(m1, m2, ident, args),
    ensures
        m2 == m1,
{
    let name = response_name(ident, args);
    let list = array_response_name(name);
    assert(m1.dom().contains(name));
    assert(m1.dom().contains(list));
    assert(m2 =~= m1);
}

/// Declares a response type among the response components: under its name,
/// the response with the type's schema for each content type, and under
/// the list name (see `array_response_name`), the response with a list of
/// them; neither replaces a response declared before under its name.
pub fn declare_response(responses: &mut StrMap<Response>, ident: String, args: ResponseArgs)
    ensures
        declares_response(old(responses).as_map(), final(responses).as_map(), ident, args),
{
    let ghost name_spec = response_name(ident, args);
    let refs = content_map(&args.content_types, &ident, false);
    let lists = content_map(&args.content_types, &ident, true);
    let ResponseArgs { content_types, schema, description } = args;
    let name = match schema {
        Some(n) => n,
        None => ident,
    };
    let response = Response { content: refs, description: description.clone() };
    let response_list = Response { content: lists, description };
    let list_name = array_response(name.as_str());
    let ghost old_map = responses.as_map();
    proof {
        reveal_strlit("autogen__");
        assert(list_name@.len() > name@.len());
    }
    responses.insert_if_absent(list_name, response_list);
    let ghost mid = responses.as_map();
    responses.insert_if_absent(name, response);
    proof {
        let list = array_response_name(name_spec);
        let new_map = responses.as_map();
        assert(new_map =~= old_map.insert(list, new_map[list]).insert(name_spec, new_map[name_spec]));
    }
}

} // verus!
