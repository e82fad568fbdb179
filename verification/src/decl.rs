//! The declaration file of the endpoint macros: the structs and endpoints
//! that were registered, written out as an indented JSON-like text.
use vstd::prelude::*;

use crate::text::{
    decimal, decimal_of, indent_spec, join, join_with, lines, lines_of, push_all, push_str,
    replace, replace_all, string_of, string_views, views,
};

verus! {

/// Splits results into their values and their errors, each in order.
pub fn collect_errors<V, E>(results: Vec<Result<V, E>>) -> (r: (Vec<V>, Vec<E>))
    ensures
        r.0@ == oks(results@),
        r.1@ == errs(results@),
{
    let ghost rs = results@;
    let mut rest = results;
    let mut values: Vec<V> = Vec::new();
    let mut errors: Vec<E> = Vec::new();
    let n = rest.len();
    let mut i: usize = 0;
    while i < n
        invariant
            n == rs.len(),
            i <= n,
            rest@ == rs.skip(i as int),
            values@ == oks(rs.take(i as int)),
            errors@ == errs(rs.take(i as int)),
        decreases n - i,
    {
        let r = rest.remove(0);
        proof {
            assert(rs.skip(i as int)[0] == rs[i as int]);
            assert(rest@ =~= rs.skip(i + 1));
            assert(rs.take(i + 1).drop_last() =~= rs.take(i as int));
        }
        match r {
            Ok(v) => values.push(v),
            Err(e) => errors.push(e),
        }
        i = i + 1;
    }
    assert(rs.take(n as int) =~= rs);
    (values, errors)
}

/// The values of the results, in order.
pub open spec fn oks<V, E>(rs: Seq<Result<V, E>>) -> Seq<V>
    decreases rs.len(),
{
    if rs.len() == 0 {
        Seq::empty()
    } else {
        match rs.last() {
            Ok(v) => oks(rs.drop_last()).push(v),
            Err(_) => oks(rs.drop_last()),
        }
    }
}

/// The errors of the results, in order.
pub open spec fn errs<V, E>(rs: Seq<Result<V, E>>) -> Seq<E>
    decreases rs.len(),
{
    if rs.len() == 0 {
        Seq::empty()
    } else {
        match rs.last() {
            Err(e) => errs(rs.drop_last()).push(e),
            Ok(_) => errs(rs.drop_last()),
        }
    }
}

/// Success where there is no error, else all the errors together.
pub fn combine_errors<E>(errors: Vec<E>) -> (r: Result<(), Vec<E>>)
    ensures
        errors@.len() == 0 ==> r is Ok,
        errors@.len() > 0 ==> (r matches Err(es) && es@ == errors@),
{
    if errors.len() > 0 {
        Err(errors)
    } else {
        Ok(())
    }
}

/// The results' values, or all of their errors together.
pub fn all_ok<V, E>(results: Vec<Result<V, E>>) -> (r: Result<Vec<V>, Vec<E>>)
    ensures
        errs(results@).len() == 0 ==> (r matches Ok(vs) && vs@ == oks(results@)),
        errs(results@).len() > 0 ==> (r matches Err(es) && es@ == errs(results@)),
{
    let (values, errors) = collect_errors(results);
    match combine_errors(errors) {
        Ok(()) => Ok(values),
        Err(es) => Err(es),
    }
}

/// Each line of the text prefixed with two spaces, the lines joined with
/// line feeds.
pub fn indent(s: String) -> (r: String)
    ensures
        r@ == indent_spec(s@),
{
    let cs = crate::text::chars_of(s.as_str());
    let ls = lines_of(&cs);
    let ghost mapped = lines(s@).map_values(|l: Seq<char>| seq![' ', ' '] + l);
    let mut out: Vec<Vec<char>> = Vec::new();
    let mut i: usize = 0;
    while i < ls.len()
        invariant
            views(ls@) == lines(s@),
            mapped == lines(s@).map_values(|l: Seq<char>| seq![' ', ' '] + l),
            i <= ls@.len(),
            out@.len() == i,
            forall|j: int| 0 <= j < i ==> (#[trigger] out@[j])@ == mapped[j],
        decreases ls@.len() - i,
    {
        let mut l: Vec<char> = Vec::new();
        l.push(' ');
        l.push(' ');
        push_all(&mut l, &ls[i]);
        proof {
            assert(views(ls@)[i as int] == ls@[i as int]@);
            assert(l@ =~= mapped[i as int]);
        }
        out.push(l);
        i = i + 1;
    }
    assert(views(out@) =~= mapped);
    let nl = vec!['\n'];
    assert(nl@ =~= seq!['\n']);
    string_of(&join_with(&out, &nl))
}

/// An endpoint as the declaration file lists it.
pub struct Endpoint {
    pub path: Vec<String>,
    pub method: String,
    pub request: String,
    pub response: String,
    pub error: String,
}

/// How a route segment is listed: quoted, after a slash that is dropped
/// before a `%`.
pub open spec fn path_entry(p: Seq<char>) -> Seq<char> {
    replace(seq!['"', '/'] + p + seq!['"'], seq!['/', '%'], seq!['%'])
}

/// The text an endpoint is listed as.
pub open spec fn endpoint_text(e: Endpoint) -> Seq<char> {
    "{\n  \"path\": ["@ + join(string_views(e.path@).map_values(|p: Seq<char>| path_entry(p)), ", "@)
        + "],\n  \"method\": \""@ + e.method@ + "\",\n  \"request\": \""@ + e.request@
        + "\",\n  \"response\": \""@ + e.response@ + "\",\n  \"error\": \""@ + e.error@
        + "\"\n}"@
}

impl Endpoint {
    /// The text the endpoint is listed as.
    pub fn text(&self) -> (t: String)
        ensures
            t@ == endpoint_text(*self),
    {
        let ghost entries = string_views(self.path@).map_values(|p: Seq<char>| path_entry(p));
        let from = vec!['/', '%'];
        let to = vec!['%'];
        assert(from@ =~= seq!['/', '%']);
        assert(to@ =~= seq!['%']);
        let mut parts: Vec<Vec<char>> = Vec::new();
        let mut i: usize = 0;
        while i < self.path.len()
            invariant
                i <= self.path@.len(),
                from@ == seq!['/', '%'],
                to@ == seq!['%'],
                entries == string_views(self.path@).map_values(|p: Seq<char>| path_entry(p)),
                parts@.len() == i,
                forall|j: int| 0 <= j < i ==> (#[trigger] parts@[j])@ == entries[j],
            decreases self.path@.len() - i,
        {
            let mut q: Vec<char> = Vec::new();
            q.push('"');
            q.push('/');
            push_str(&mut q, self.path[i].as_str());
            q.push('"');
            let e = replace_all(&q, &from, &to);
            proof {
                assert(q@ =~= seq!['"', '/'] + self.path@[i as int]@ + seq!['"']);
            }
            parts.push(e);
            i = i + 1;
        }
        assert(views(parts@) =~= entries);
        let sep = crate::text::chars_of(", ");
        let mut t: Vec<char> = crate::text::chars_of("{\n  \"path\": [");
        push_all(&mut t, &join_with(&parts, &sep));
        push_str(&mut t, "],\n  \"method\": \"");
        push_str(&mut t, self.method.as_str());
        push_str(&mut t, "\",\n  \"request\": \"");
        push_str(&mut t, self.request.as_str());
        push_str(&mut t, "\",\n  \"response\": \"");
        push_str(&mut t, self.response.as_str());
        push_str(&mut t, "\",\n  \"error\": \"");
        push_str(&mut t, self.error.as_str());
        push_str(&mut t, "\"\n}");
        string_of(&t)
    }
}

/// The name a struct field is listed under: its name, or its position.
pub open spec fn field_name(i: int, ident: Option<String>) -> Seq<char> {
    match ident {
        Some(s) => s@,
        None => decimal(i as nat),
    }
}

/// The field list text before its last character is taken off: `[`, then
/// `["name", "type"],` for each field.
pub open spec fn fields_text(fs: Seq<(Option<String>, String)>) -> Seq<char>
    decreases fs.len(),
{
    if fs.len() == 0 {
        seq!['[']
    } else {
        let i = fs.len() - 1;
        fields_text(fs.drop_last()) + "[\""@ + field_name(i, fs[i].0) + "\", \""@ + fs[i].1@
            + "\"],"@
    }
}

/// The text a struct is listed as: `{"Name": [...]}`, the fields' entries
/// separated by commas (the comma after the last one dropped), and `[]` for
/// a struct without fields.
pub open spec fn struct_text(ident: Seq<char>, fs: Seq<(Option<String>, String)>) -> Seq<char> {
    "{\""@ + ident + "\": "@ + (if fs.len() == 0 {
        seq!['[']
    } else {
        fields_text(fs).drop_last()
    }) + "]}"@
}

/// All that was registered, in order.
pub struct Declarations {
    pub structs: Vec<String>,
    pub endpoints: Vec<Endpoint>,
}

/// The declaration file's text.
pub open spec fn decl_text(structs: Seq<String>, endpoints: Seq<Endpoint>) -> Seq<char> {
    let s = "[\n  "@ + join(string_views(structs), ",\n  "@) + "\n]"@;
    let e = "[\n"@ + join(
        endpoints.map_values(|x: Endpoint| indent_spec(endpoint_text(x))),
        ",\n"@,
    ) + "\n]"@;
    "{\n  \"structs\": "@ + indent_spec(s) + ",\n  \"endpoints\": "@ + indent_spec(e) + "\n}"@
}

/// The declaration file's text for the registered structs and endpoints.
pub fn decl_content(structs: &Vec<String>, endpoints: &Vec<Endpoint>) -> (r: String)
    ensures
        r@ == decl_text(structs@, endpoints@),
{
    let ghost es = endpoints@.map_values(|x: Endpoint| indent_spec(endpoint_text(x)));
    let mut items: Vec<Vec<char>> = Vec::new();
    let mut i: usize = 0;
    while i < endpoints.len()
        invariant
            i <= endpoints@.len(),
            es == endpoints@.map_values(|x: Endpoint| indent_spec(endpoint_text(x))),
            items@.len() == i,
            forall|j: int| 0 <= j < i ==> (#[trigger] items@[j])@ == es[j],
        decreases endpoints@.len() - i,
    {
        let t = indent(endpoints[i].text());
        items.push(crate::text::chars_of(t.as_str()));
        i = i + 1;
    }
    assert(views(items@) =~= es);
    let mut s: Vec<char> = crate::text::chars_of("[\n  ");
    push_all(&mut s, &join_with(&crate::text::chars_of_all(structs), &crate::text::chars_of(",\n  ")));
    push_str(&mut s, "\n]");
    let mut e: Vec<char> = crate::text::chars_of("[\n");
    push_all(&mut e, &join_with(&items, &crate::text::chars_of(",\n")));
    push_str(&mut e, "\n]");
    let s = indent(string_of(&s));
    let e = indent(string_of(&e));
    let mut out = String::from_str("{\n  \"structs\": ");
    out.append(s.as_str());
    out.append(",\n  \"endpoints\": ");
    out.append(e.as_str());
    out.append("\n}");
    out
}

impl Declarations {
    /// Nothing registered.
    pub fn new() -> (d: Declarations)
        ensures
            d.structs@.len() == 0,
            d.endpoints@.len() == 0,
    {
        Declarations { structs: Vec::new(), endpoints: Vec::new() }
    }

    /// Registers a struct by its name and its fields' names and types.
    pub fn register_struct(&mut self, ident: &str, fields: &Vec<(Option<String>, String)>)
        ensures
            final(self).structs@ == old(self).structs@.push(
                final(self).structs@.last(),
            ),
            final(self).structs@.last()@ == struct_text(ident@, fields@),
            final(self).endpoints@ == old(self).endpoints@,
    {
        let mut t: Vec<char> = Vec::new();
        t.push('[');
        let mut i: usize = 0;
        while i < fields.len()
            invariant
                i <= fields@.len(),
                t@.len() >= 1,
                t@ == fields_text(fields@.take(i as int)),
            decreases fields@.len() - i,
        {
            let ghost before = t@;
            push_str(&mut t, "[\"");
            match &fields[i].0 {
                Some(name) => push_str(&mut t, name.as_str()),
                None => push_all(&mut t, &decimal_of(i as u64)),
            }
            push_str(&mut t, "\", \"");
            push_str(&mut t, fields[i].1.as_str());
            push_str(&mut t, "\"],");
            proof {
                assert(fields@.take(i + 1).drop_last() =~= fields@.take(i as int));
            }
            i = i + 1;
        }
        assert(fields@.take(fields@.len() as int) =~= fields@);
        if fields.len() > 0 {
            t.pop();
        }
        let mut out = String::from_str("{\"");
        out.append(ident);
        out.append("\": ");
        out.append(string_of(&t).as_str());
        out.append("]}");
        self.structs.push(out);
    }

    /// Registers an endpoint.
    pub fn register_endpoint(&mut self, e: Endpoint)
        ensures
            final(self).endpoints@ == old(self).endpoints@.push(e),
            final(self).structs@ == old(self).structs@,
    {
        self.endpoints.push(e);
    }

    /// The text to write into the declaration file, when writing it is
    /// allowed.
    pub fn write_decl(&self, io_allowed: bool) -> (r: Option<String>)
        ensures
            !io_allowed ==> r is None,
            io_allowed ==> (r matches Some(t) && t@ == decl_text(self.structs@, self.endpoints@)),
    {
        if io_allowed {
            Some(decl_content(&self.structs, &self.endpoints))
        } else {
            None
        }
    }
}

} // verus!
