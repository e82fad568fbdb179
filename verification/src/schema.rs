//! Deriving the schema of a declared type: the properties of a struct from
//! the types and attributes of its fields, the values of an enum from its
//! variants, and their entry among the description's components.
use vstd::prelude::*;

use crate::map::StrMap;
use crate::openapi::{
    ArraySchema, ComponentType, EnumSchema, OrRef, PrimitiveSchema, ReferenceObject, Schema,
    SchemaType, StructSchema,
};
use crate::text::{ascii_lower, chars_of, decimal, decimal_of, string_of, string_views};

verus! {

/// A type written as a path, as the derivation reads it.
pub struct TypePath {
    pub segments: Vec<PathSegment>,
}

/// A segment of a path: its name, and the first of its type arguments that
/// is itself written as a path.
pub struct PathSegment {
    pub ident: String,
    pub inner: Option<TypePath>,
}

/// The type of a field.
pub enum FieldType {
    Path(TypePath),
    Other,
}

/// What the `schema` attribute of a field says.
pub struct PropertyArgs {
    pub example: Option<String>,
    pub format: Option<String>,
    pub reference: Option<String>,
    pub description: Option<String>,
    pub required: bool,
}

/// A field of a struct: its name (none in a tuple struct), its type, and
/// its attribute's arguments, or the message of the error that reading them
/// gave.
pub struct FieldInfo {
    pub ident: Option<String>,
    pub ty: FieldType,
    pub args: Result<PropertyArgs, String>,
}

/// What the `schema` attribute of an enum variant says.
pub struct VariantArgs {
    pub repr: Option<String>,
    pub example: bool,
}

/// A variant of an enum: its name, and its attribute if it has one.
pub struct VariantInfo {
    pub ident: String,
    pub attr: Option<Result<VariantArgs, String>>,
}

/// What the `schema` attribute of a type says.
pub struct SchemaArgs {
    pub name: Option<String>,
    pub description: Option<String>,
}

/// The body of a declared type.
pub enum SchemaData {
    Struct(Vec<FieldInfo>),
    Enum(Vec<VariantInfo>),
    Union,
}

/// A type declared as a schema.
pub struct SchemaInput {
    pub ident: String,
    pub data: SchemaData,
    pub args: Result<SchemaArgs, String>,
}

/// Why a schema could not be derived.
#[derive(Debug)]
pub enum SchemaError {
    EmptyPath,
    MissingInnerType,
    UnsupportedFieldType,
    Union,
    DuplicateName,
    Attribute(String),
}

impl SchemaError {
    /// The message the error is reported with.
    pub fn message(&self) -> (m: String)
        ensures
            m@ == schema_error_message(*self),
    {
        match self {
            SchemaError::EmptyPath => String::from_str("Empty Path?"),
            SchemaError::MissingInnerType => String::from_str("expected an inner type"),
            SchemaError::UnsupportedFieldType => String::from_str(
                "Only Path types are supported for Schemas",
            ),
            SchemaError::Union => String::from_str("unions are not supported for schemas"),
            SchemaError::DuplicateName => String::from_str("duplicate schema name"),
            SchemaError::Attribute(m) => m.clone(),
        }
    }
}

/// The message of each error.
pub open spec fn schema_error_message(e: SchemaError) -> Seq<char> {
    match e {
        SchemaError::EmptyPath => "Empty Path?"@,
        SchemaError::MissingInnerType => "expected an inner type"@,
        SchemaError::UnsupportedFieldType => "Only Path types are supported for Schemas"@,
        SchemaError::Union => "unions are not supported for schemas"@,
        SchemaError::DuplicateName => "duplicate schema name"@,
        SchemaError::Attribute(m) => m@,
    }
}

/// The number of path nodes in a type path, a measure for recursion.
pub open spec fn path_size(p: TypePath) -> nat
    decreases p, 0nat,
{
    1 + segments_size(p.segments@)
}

pub open spec fn segments_size(s: Seq<PathSegment>) -> nat
    decreases s, s.len(),
{
    if s.len() == 0 {
        0
    } else {
        segments_size(s.drop_last()) + match s.last().inner {
            Some(q) => path_size(q),
            None => 0,
        }
    }
}

proof fn lemma_inner_smaller(p: TypePath)
    requires
        p.segments@.len() > 0,
        p.segments@.last().inner is Some,
    ensures
        path_size(p.segments@.last().inner->0) < path_size(p),
{
}

/// The schema of a value of the type `p`, with `format` for primitive types:
/// `Option` of a type is that type, `Vec` of a type an array of it,
/// `String`, `i32`, `i64`, `f32`, `f64` and `bool` primitive, and any other
/// name a reference to the schema of that name.
pub open spec fn property_type(p: TypePath, format: Option<String>) -> Result<
    OrRef<SchemaType>,
    SchemaError,
>
    decreases path_size(p),
{
    if p.segments@.len() == 0 {
        Err(SchemaError::EmptyPath)
    } else {
        let seg = p.segments@.last();
        let name = seg.ident@;
        if name == "Option"@ {
            match seg.inner {
                Some(q) => if path_size(q) < path_size(p) {
                    property_type(q, format)
                } else {
                    Err(SchemaError::MissingInnerType)
                },
                None => Err(SchemaError::MissingInnerType),
            }
        } else if name == "Vec"@ {
            match seg.inner {
                Some(q) => if path_size(q) < path_size(p) {
                    match property_type(q, format) {
                        Ok(t) => Ok(
                            OrRef::Val(SchemaType::Array(ArraySchema { items: Box::new(t) })),
                        ),
                        Err(e) => Err(e),
                    }
                } else {
                    Err(SchemaError::MissingInnerType)
                },
                None => Err(SchemaError::MissingInnerType),
            }
        } else if name == "String"@ {
            Ok(OrRef::Val(SchemaType::Primitive(PrimitiveSchema { ty: "string", format })))
        } else if name == "i32"@ || name == "i64"@ || name == "f32"@ || name == "f64"@ {
            Ok(OrRef::Val(SchemaType::Primitive(PrimitiveSchema { ty: "number", format })))
        } else if name == "bool"@ {
            Ok(OrRef::Val(SchemaType::Primitive(PrimitiveSchema { ty: "boolean", format })))
        } else {
            Ok(OrRef::Ref(ReferenceObject { component: ComponentType::Schema, name: seg.ident }))
        }
    }
}

fn is_named(s: &String, lit: &str) -> (b: bool)
    ensures
        b == (s@ == lit@),
{
    let l = String::from_str(lit);
    *s == l
}

/// The names of the primitive types.
pub open spec fn is_primitive_name(name: Seq<char>) -> bool {
    name == "String"@ || name == "i32"@ || name == "i64"@ || name == "f32"@ || name == "f64"@
        || name == "bool"@
}

/// A type whose last segment names a primitive gives a primitive schema
/// carrying exactly the format that was passed in.
pub proof fn law_primitive_keeps_format(p: TypePath, format: Option<String>)
    requires
        p.segments@.len() > 0,
        is_primitive_name(p.segments@.last().ident@),
    ensures
        property_type(p, format) matches Ok(OrRef::Val(SchemaType::Primitive(ps))) && ps.format
            == format,
{
    reveal_strlit("Option");
    reveal_strlit("Vec");
    reveal_strlit("String");
    reveal_strlit("i32");
    reveal_strlit("i64");
    reveal_strlit("f32");
    reveal_strlit("f64");
    reveal_strlit("bool");
    let name = p.segments@.last().ident@;
    assert(name != "Option"@ && name != "Vec"@) by {
        if name == "Option"@ || name == "Vec"@ {
            assert(name.len() == 6 || name.len() == 3);
            assert(name[0] == 'O' || name[0] == 'V');
        }
    }
}

/// Whatever the type, through `Option` and `Vec` too, a primitive schema
/// that comes out carries exactly the format that was passed in.
pub proof fn law_format_passes_through(p: TypePath, format: Option<String>)
    ensures
        property_type(p, format) matches Ok(OrRef::Val(SchemaType::Primitive(ps))) ==> ps.format
            == format,
    decreases path_size(p),
{
    if p.segments@.len() > 0 {
        let seg = p.segments@.last();
        if seg.ident@ == "Option"@ {
            if let Some(q) = seg.inner {
                if path_size(q) < path_size(p) {
                    law_format_passes_through(q, format);
                }
            }
        }
    }
}

/// The schema of a value of the type `p` (see `property_type`).
pub fn path_to_property_type(p: &TypePath, format: Option<String>) -> (r: Result<
    OrRef<SchemaType>,
    SchemaError,
>)
    ensures
        r == property_type(*p, format),
    decreases path_size(*p),
{
    let n = p.segments.len();
    if n == 0 {
        return Err(SchemaError::EmptyPath);
    }
    let seg = &p.segments[n - 1];
    proof {
        assert(*seg == p.segments@.last());
        if seg.inner is Some {
            lemma_inner_smaller(*p);
        }
    }
    if is_named(&seg.ident, "Option") {
        match &seg.inner {
            Some(q) => path_to_property_type(q, format),
            None => Err(SchemaError::MissingInnerType),
        }
    } else if is_named(&seg.ident, "Vec") {
        match &seg.inner {
            Some(q) => match path_to_property_type(q, format) {
                Ok(t) => Ok(OrRef::Val(SchemaType::Array(ArraySchema { items: Box::new(t) }))),
                Err(e) => Err(e),
            },
            None => Err(SchemaError::MissingInnerType),
        }
    } else if is_named(&seg.ident, "String") {
        Ok(OrRef::Val(SchemaType::Primitive(PrimitiveSchema { ty: "string", format })))
    } else if is_named(&seg.ident, "i32") || is_named(&seg.ident, "i64") || is_named(
        &seg.ident,
        "f32",
    ) || is_named(&seg.ident, "f64") {
        Ok(OrRef::Val(SchemaType::Primitive(PrimitiveSchema { ty: "number", format })))
    } else if is_named(&seg.ident, "bool") {
        Ok(OrRef::Val(SchemaType::Primitive(PrimitiveSchema { ty: "boolean", format })))
    } else {
        Ok(OrRef::Ref(ReferenceObject { component: ComponentType::Schema, name: seg.ident.clone() }))
    }
}

/// The name a field's property goes by: the field's name, or its position
/// in a tuple struct.
pub open spec fn field_key(i: int, ident: Option<String>) -> Seq<char> {
    match ident {
        Some(s) => s@,
        None => decimal(i as nat),
    }
}

/// Whether the last segment of the path is `Option`.
pub open spec fn last_is_option(p: TypePath) -> bool {
    p.segments@.len() > 0 && p.segments@.last().ident@ == "Option"@
}

/// What a field gives: its property and whether it is required, or an error.
/// A reference, given by the attribute or by the type, is never required; a
/// property is required when the attribute says so or when the type's last
/// segment is not `Option`.
pub open spec fn field_property(ty: FieldType, args: Result<PropertyArgs, String>) -> Result<
    (OrRef<Schema>, bool),
    SchemaError,
> {
    match ty {
        FieldType::Other => Err(SchemaError::UnsupportedFieldType),
        FieldType::Path(p) => match args {
            Err(m) => Err(SchemaError::Attribute(m)),
            Ok(a) => match a.reference {
                Some(r) => Ok(
                    (OrRef::Ref(ReferenceObject { component: ComponentType::Schema, name: r }), false),
                ),
                None => match property_type(p, a.format) {
                    Err(e) => Err(e),
                    Ok(OrRef::Ref(r)) => Ok((OrRef::Ref(r), false)),
                    Ok(OrRef::Val(t)) => Ok(
                        (
                            OrRef::Val(
                                Schema { description: a.description, example: a.example, ty: t },
                            ),
                            a.required || !last_is_option(p),
                        ),
                    ),
                },
            },
        },
    }
}

/// A field's property carries what its attribute declares: when the field
/// has a path type that gives a value type and the attribute names no
/// reference, the property has that type, the attribute's example and the
/// attribute's description.
pub proof fn law_property_keeps_attribute(p: TypePath, a: PropertyArgs)
    requires
        a.reference is None,
        property_type(p, a.format) is Ok,
        property_type(p, a.format)->Ok_0 is Val,
    ensures
        field_property(FieldType::Path(p), Ok(a)) matches Ok((OrRef::Val(sch), _)) && sch.example
            == a.example && sch.description == a.description && OrRef::Val(sch.ty) == property_type(
            p,
            a.format,
        )->Ok_0,
{
}

/// Reading a field's type panics when the type's path has no segment.
pub open spec fn field_panics(f: FieldInfo) -> bool {
    match (f.ty, f.args) {
        (FieldType::Path(p), Ok(a)) => a.reference is None && p.segments@.len() == 0,
        _ => false,
    }
}

/// The properties of the fields, inserted in order.
pub open spec fn struct_properties(fs: Seq<FieldInfo>) -> Map<Seq<char>, OrRef<Schema>>
    decreases fs.len(),
{
    if fs.len() == 0 {
        Map::empty()
    } else {
        let i = fs.len() - 1;
        match field_property(fs[i].ty, fs[i].args) {
            Ok((v, _)) => struct_properties(fs.drop_last()).insert(field_key(i, fs[i].ident), v),
            Err(_) => struct_properties(fs.drop_last()),
        }
    }
}

/// The names of the required properties, in the order of the fields.
pub open spec fn struct_required(fs: Seq<FieldInfo>) -> Seq<Seq<char>>
    decreases fs.len(),
{
    if fs.len() == 0 {
        Seq::empty()
    } else {
        let i = fs.len() - 1;
        match field_property(fs[i].ty, fs[i].args) {
            Ok((_, true)) => struct_required(fs.drop_last()).push(field_key(i, fs[i].ident)),
            _ => struct_required(fs.drop_last()),
        }
    }
}

/// The errors of the fields, in order.
pub open spec fn struct_errors(fs: Seq<FieldInfo>) -> Seq<SchemaError>
    decreases fs.len(),
{
    if fs.len() == 0 {
        Seq::empty()
    } else {
        let i = fs.len() - 1;
        match field_property(fs[i].ty, fs[i].args) {
            Err(e) => struct_errors(fs.drop_last()).push(e),
            Ok(_) => struct_errors(fs.drop_last()),
        }
    }
}

fn declare_property(ty: FieldType, args: Result<PropertyArgs, String>) -> (r: Result<
    (OrRef<Schema>, bool),
    SchemaError,
>)
    requires
        !field_panics(FieldInfo { ident: None, ty, args }),
    ensures
        r == field_property(ty, args),
{
    match ty {
        FieldType::Other => Err(SchemaError::UnsupportedFieldType),
        FieldType::Path(p) => match args {
            Err(m) => Err(SchemaError::Attribute(m)),
            Ok(a) => {
                let PropertyArgs { example, format, reference, description, required } = a;
                match reference {
                    Some(r) => Ok((OrRef::Ref(ReferenceObject::schema(r)), false)),
                    None => {
                        let n = p.segments.len();
                        let optional = is_named(&p.segments[n - 1].ident, "Option");
                        match path_to_property_type(&p, format) {
                            Err(e) => Err(e),
                            Ok(OrRef::Ref(r)) => Ok((OrRef::Ref(r), false)),
                            Ok(OrRef::Val(t)) => Ok(
                                (
                                    OrRef::Val(Schema { description, example, ty: t }),
                                    required || !optional,
                                ),
                            ),
                        }
                    },
                }
            },
        },
    }
}

/// The schema of a struct: a property per field, named by the field, and
/// the list of the required ones; or every error that a field gave, in the
/// order of the fields.
pub fn declare_struct_schema(fields: Vec<FieldInfo>) -> (r: Result<StructSchema, Vec<SchemaError>>)
    requires
        forall|i: int| 0 <= i < fields@.len() ==> !field_panics(#[trigger] fields@[i]),
    ensures
        match r {
            Ok(s) => struct_errors(fields@).len() == 0 && s.properties.as_map() == struct_properties(
                fields@,
            ) && string_views(s.required@) == struct_required(fields@),
            Err(es) => struct_errors(fields@).len() > 0 && es@ == struct_errors(fields@),
        },
{
    let ghost fs = fields@;
    let mut rest = fields;
    let mut properties: StrMap<OrRef<Schema>> = StrMap::new();
    let mut required: Vec<String> = Vec::new();
    let mut errors: Vec<SchemaError> = Vec::new();
    let n = rest.len();
    let mut i: usize = 0;
    while i < n
        invariant
            n == fs.len(),
            i <= n,
            rest@ == fs.skip(i as int),
            forall|j: int| 0 <= j < fs.len() ==> !field_panics(#[trigger] fs[j]),
            properties.as_map() == struct_properties(fs.take(i as int)),
            string_views(required@) == struct_required(fs.take(i as int)),
            errors@ == struct_errors(fs.take(i as int)),
        decreases n - i,
    {
        let f = rest.remove(0);
        proof {
            assert(fs.skip(i as int)[0] == fs[i as int]);
            assert(rest@ =~= fs.skip(i + 1));
            assert(fs.take(i + 1).drop_last() =~= fs.take(i as int));
            assert(fs.take(i + 1)[i as int] == fs[i as int]);
            assert(!field_panics(fs[i as int]));
        }
        let FieldInfo { ident, ty, args } = f;
        let key: String = match ident {
            Some(s) => s,
            None => string_of(&decimal_of(i as u64)),
        };
        assert(key@ == field_key(i as int, fs[i as int].ident));
        match declare_property(ty, args) {
            Ok((v, req)) => {
                if req {
                    let k2 = key.clone();
                    required.push(k2);
                    assert(string_views(required@) =~= struct_required(fs.take(i as int)).push(
                        key@,
                    ));
                }
                properties.insert(key, v);
            },
            Err(e) => {
                errors.push(e);
            },
        }
        i = i + 1;
    }
    assert(fs.take(n as int) =~= fs);
    if errors.len() > 0 {
        Err(errors)
    } else {
        Ok(StructSchema { properties, required })
    }
}

/// What `char::to_lowercase` yields for `c`: its Unicode lowercase mapping.
pub uninterp spec fn char_lowercase(c: char) -> Seq<char>;

/// `char::to_lowercase`, collected: the lowercase mapping of `c`, one or
/// more characters; for an ASCII character the same as
/// `to_ascii_lowercase`.
#[verifier::external_body]
fn to_lowercase_chars(c: char) -> (r: Vec<char>)
    ensures
        r@ == char_lowercase(c),
        r@.len() >= 1,
        (c as u32) < 128 ==> r@ == seq![ascii_lower(c)],
{
    c.to_lowercase().collect()
}

/// The lowercase mapping of a character: for an ASCII character its ASCII
/// lower case, otherwise the Unicode mapping.
pub open spec fn lower_char_spec(c: char) -> Seq<char> {
    if (c as u32) < 128 {
        seq![ascii_lower(c)]
    } else {
        char_lowercase(c)
    }
}

/// The text with its first character in lower case.
pub open spec fn lower_first_spec(s: Seq<char>) -> Seq<char> {
    if s.len() == 0 {
        Seq::empty()
    } else {
        lower_char_spec(s[0]) + s.drop_first()
    }
}

/// The text with its first character in lower case (Unicode lower case,
/// which can be more than one character).
pub fn lowercase_first_letter(s: &str) -> (r: String)
    ensures
        r@ == lower_first_spec(s@),
{
    let cs = chars_of(s);
    if cs.len() == 0 {
        return String::new();
    }
    let mut out = to_lowercase_chars(cs[0]);
    let mut i: usize = 1;
    while i < cs.len()
        invariant
            1 <= i <= cs@.len(),
            out@ == lower_char_spec(cs@[0]) + cs@.subrange(1, i as int),
        decreases cs@.len() - i,
    {
        out.push(cs[i]);
        proof {
            assert(cs@.subrange(1, i + 1) =~= cs@.subrange(1, i as int).push(cs@[i as int]));
        }
        i = i + 1;
    }
    assert(cs@.subrange(1, cs@.len() as int) =~= cs@.drop_first());
    string_of(&out)
}

/// The value a variant is written as, and whether it is the example; or
/// the error its attribute gave.
pub open spec fn variant_outcome(v: VariantInfo) -> Result<(Seq<char>, bool), SchemaError> {
    match v.attr {
        None => Ok((lower_first_spec(v.ident@), false)),
        Some(Err(m)) => Err(SchemaError::Attribute(m)),
        Some(Ok(a)) => Ok(
            (
                match a.repr {
                    Some(r) => r@,
                    None => lower_first_spec(v.ident@),
                },
                a.example,
            ),
        ),
    }
}

/// The values of the variants, in order.
pub open spec fn enum_values(vs: Seq<VariantInfo>) -> Seq<Seq<char>>
    decreases vs.len(),
{
    if vs.len() == 0 {
        Seq::empty()
    } else {
        match variant_outcome(vs.last()) {
            Ok((n, _)) => enum_values(vs.drop_last()).push(n),
            Err(_) => enum_values(vs.drop_last()),
        }
    }
}

/// The value of the last variant marked as the example.
pub open spec fn enum_example(vs: Seq<VariantInfo>) -> Option<Seq<char>>
    decreases vs.len(),
{
    if vs.len() == 0 {
        None
    } else {
        match variant_outcome(vs.last()) {
            Ok((n, true)) => Some(n),
            _ => enum_example(vs.drop_last()),
        }
    }
}

/// The errors of the variants, in order.
pub open spec fn enum_errors(vs: Seq<VariantInfo>) -> Seq<SchemaError>
    decreases vs.len(),
{
    if vs.len() == 0 {
        Seq::empty()
    } else {
        match variant_outcome(vs.last()) {
            Err(e) => enum_errors(vs.drop_last()).push(e),
            Ok(_) => enum_errors(vs.drop_last()),
        }
    }
}

/// The view of an optional string.
pub open spec fn opt_view(o: Option<String>) -> Option<Seq<char>> {
    match o {
        Some(s) => Some(s@),
        None => None,
    }
}

/// The schema of an enum: a string, one of the variants' values; or every
/// error that a variant's attribute gave, in order.
pub fn declare_enum_schema(variants: Vec<VariantInfo>) -> (r: Result<EnumSchema, Vec<SchemaError>>)
    ensures
        match r {
            Ok(e) => enum_errors(variants@).len() == 0 && e.ty@ == "string"@ && string_views(
                e.variants@,
            ) == enum_values(variants@) && opt_view(e.example) == enum_example(variants@),
            Err(es) => enum_errors(variants@).len() > 0 && es@ == enum_errors(variants@),
        },
{
    let ghost vs = variants@;
    let mut rest = variants;
    let mut values: Vec<String> = Vec::new();
    let mut example: Option<String> = None;
    let mut errors: Vec<SchemaError> = Vec::new();
    let n = rest.len();
    let mut i: usize = 0;
    while i < n
        invariant
            n == vs.len(),
            i <= n,
            rest@ == vs.skip(i as int),
            string_views(values@) == enum_values(vs.take(i as int)),
            opt_view(example) == enum_example(vs.take(i as int)),
            errors@ == enum_errors(vs.take(i as int)),
        decreases n - i,
    {
        let v = rest.remove(0);
        proof {
            assert(vs.skip(i as int)[0] == vs[i as int]);
            assert(rest@ =~= vs.skip(i + 1));
            assert(vs.take(i + 1).drop_last() =~= vs.take(i as int));
            assert(vs.take(i + 1).last() == vs[i as int]);
        }
        let VariantInfo { ident, attr } = v;
        match attr {
            None => {
                let name = lowercase_first_letter(ident.as_str());
                values.push(name);
                assert(string_views(values@) =~= enum_values(vs.take(i as int)).push(
                    lower_first_spec(ident@),
                ));
            },
            Some(Err(m)) => {
                errors.push(SchemaError::Attribute(m));
            },
            Some(Ok(a)) => {
                let VariantArgs { repr, example: is_example } = a;
                let name = match repr {
                    Some(r) => r,
                    None => lowercase_first_letter(ident.as_str()),
                };
                if is_example {
                    example = Some(name.clone());
                }
                values.push(name);
                assert(string_views(values@) =~= enum_values(vs.take(i as int)).push(
                    variant_outcome(vs[i as int])->Ok_0.0,
                ));
            },
        }
        i = i + 1;
    }
    assert(vs.take(n as int) =~= vs);
    if errors.len() > 0 {
        Err(errors)
    } else {
        Ok(EnumSchema { ty: String::from_str("string"), variants: values, example })
    }
}

/// Whether `t` is the schema that the body of a declared type gives.
pub open spec fn describes_body(data: SchemaData, t: SchemaType) -> bool {
    match (data, t) {
        (SchemaData::Struct(fs), SchemaType::Struct(s)) => s.properties.as_map()
            == struct_properties(fs@) && string_views(s.required@) == struct_required(fs@),
        (SchemaData::Enum(vs), SchemaType::Enum(e)) => e.ty@ == "string"@ && string_views(
            e.variants@,
        ) == enum_values(vs@) && opt_view(e.example) == enum_example(vs@),
        _ => false,
    }
}

/// The errors the body of a declared type gives.
pub open spec fn body_errors(data: SchemaData) -> Seq<SchemaError> {
    match data {
        SchemaData::Struct(fs) => struct_errors(fs@),
        SchemaData::Enum(vs) => enum_errors(vs@),
        SchemaData::Union => seq![SchemaError::Union],
    }
}

/// Reading the body of a declared type panics.
pub open spec fn body_panics(data: SchemaData) -> bool {
    match data {
        SchemaData::Struct(fs) => exists|i: int| 0 <= i < fs@.len() && field_panics(#[trigger] fs@[i]),
        _ => false,
    }
}

/// The name a schema is declared under: the attribute's, or the type's.
pub open spec fn schema_name(ident: String, a: SchemaArgs) -> Seq<char> {
    match a.name {
        Some(n) => n@,
        None => ident@,
    }
}

/// Declares the schema of a type among the schema components. A body that
/// gives errors, or an attribute that could not be read, declares nothing;
/// otherwise the schema is stored under its name, in place of one of the
/// same name, which is an error where the description is written out.
pub fn declare_schema(schemas: &mut StrMap<Schema>, input: SchemaInput, io_allowed: bool) -> (r:
    Result<(), Vec<SchemaError>>)
    requires
        !body_panics(input.data),
    ensures
        body_errors(input.data).len() > 0 ==> final(schemas).as_map() == old(schemas).as_map()
            && (r matches Err(es) && es@ == body_errors(input.data)),
        body_errors(input.data).len() == 0 && input.args is Err ==> final(schemas).as_map() == old(
            schemas,
        ).as_map() && (r matches Err(es) && es@ == seq![
            SchemaError::Attribute(input.args->Err_0),
        ]),
        body_errors(input.data).len() == 0 && input.args is Ok ==> ({
            let a = input.args->Ok_0;
            let name = schema_name(input.ident, a);
            let s = final(schemas).as_map()[name];
            &&& final(schemas).as_map() == old(schemas).as_map().insert(name, s)
            &&& s.description == a.description
            &&& s.example is None
            &&& describes_body(input.data, s.ty)
            &&& (r is Err) == (io_allowed && old(schemas).as_map().dom().contains(name))
            &&& r matches Err(es) ==> es@ == seq![SchemaError::DuplicateName]
        }),
{
    let SchemaInput { ident, data, args } = input;
    let ty = match data {
        SchemaData::Struct(fs) => match declare_struct_schema(fs) {
            Ok(s) => SchemaType::Struct(s),
            Err(es) => return Err(es),
        },
        SchemaData::Enum(vs) => match declare_enum_schema(vs) {
            Ok(e) => SchemaType::Enum(e),
            Err(es) => return Err(es),
        },
        SchemaData::Union => {
            let es = vec![SchemaError::Union];
            assert(es@ =~= seq![SchemaError::Union]);
            return Err(es);
        },
    };
    let a = match args {
        Ok(a) => a,
        Err(m) => {
            let es = vec![SchemaError::Attribute(m)];
            assert(es@ =~= seq![SchemaError::Attribute(m)]);
            return Err(es);
        },
    };
    let SchemaArgs { name, description } = a;
    let name = match name {
        Some(n) => n,
        None => ident,
    };
    let schema = Schema { description, example: None, ty };
    let was = schemas.insert(name, schema);
    if was.is_some() && io_allowed {
        let es = vec![SchemaError::DuplicateName];
        assert(es@ =~= seq![SchemaError::DuplicateName]);
        Err(es)
    } else {
        Ok(())
    }
}

} // verus!
