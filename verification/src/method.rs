//! HTTP request methods and their bit masks.
use vstd::prelude::*;

use crate::text::{chars_eq, chars_of, string_of, upper_chars, upper_seq};

verus! {

/// Every valid HTTP method, with a variant for invalid methods and one that
/// stands for all of them in an endpoint's method mask.
#[derive(Clone, Copy, Debug, PartialEq, Eq, Structural, Hash)]
pub enum HttpMethod {
    GET,
    PUT,
    POST,
    DELETE,
    PATCH,
    HEAD,
    OPTIONS,
    TRACE,
    INVALID,
    ALL,
}

/// The method with the given name; the comparison ignores ASCII case.
pub open spec fn method_named(name: Seq<char>) -> HttpMethod {
    let u = upper_seq(name);
    if u == seq!['G', 'E', 'T'] {
        HttpMethod::GET
    } else if u == seq!['P', 'U', 'T'] {
        HttpMethod::PUT
    } else if u == seq!['P', 'O', 'S', 'T'] {
        HttpMethod::POST
    } else if u == seq!['D', 'E', 'L', 'E', 'T', 'E'] {
        HttpMethod::DELETE
    } else if u == seq!['P', 'A', 'T', 'C', 'H'] {
        HttpMethod::PATCH
    } else if u == seq!['H', 'E', 'A', 'D'] {
        HttpMethod::HEAD
    } else if u == seq!['O', 'P', 'T', 'I', 'O', 'N', 'S'] {
        HttpMethod::OPTIONS
    } else if u == seq!['T', 'R', 'A', 'C', 'E'] {
        HttpMethod::TRACE
    } else {
        HttpMethod::INVALID
    }
}

impl HttpMethod {
    /// The method's bit in an endpoint's method mask.
    pub open spec fn spec_bits(self) -> u16 {
        match self {
            HttpMethod::GET => 1,
            HttpMethod::PUT => 2,
            HttpMethod::POST => 4,
            HttpMethod::DELETE => 8,
            HttpMethod::PATCH => 16,
            HttpMethod::HEAD => 32,
            HttpMethod::OPTIONS => 64,
            HttpMethod::TRACE => 128,
            HttpMethod::INVALID => 0,
            HttpMethod::ALL => 0xffff,
        }
    }

    /// The method's name, as its `Debug` and `Display` forms write it.
    pub open spec fn spec_name(self) -> Seq<char> {
        match self {
            HttpMethod::GET => seq!['G', 'E', 'T'],
            HttpMethod::PUT => seq!['P', 'U', 'T'],
            HttpMethod::POST => seq!['P', 'O', 'S', 'T'],
            HttpMethod::DELETE => seq!['D', 'E', 'L', 'E', 'T', 'E'],
            HttpMethod::PATCH => seq!['P', 'A', 'T', 'C', 'H'],
            HttpMethod::HEAD => seq!['H', 'E', 'A', 'D'],
            HttpMethod::OPTIONS => seq!['O', 'P', 'T', 'I', 'O', 'N', 'S'],
            HttpMethod::TRACE => seq!['T', 'R', 'A', 'C', 'E'],
            HttpMethod::INVALID => seq!['I', 'N', 'V', 'A', 'L', 'I', 'D'],
            HttpMethod::ALL => seq!['A', 'L', 'L'],
        }
    }

    /// The method whose mask bit is `bit`, among GET to TRACE.
    pub open spec fn spec_from_bit(bit: u16) -> Option<HttpMethod> {
        if bit == 1 {
            Some(HttpMethod::GET)
        } else if bit == 2 {
            Some(HttpMethod::PUT)
        } else if bit == 4 {
            Some(HttpMethod::POST)
        } else if bit == 8 {
            Some(HttpMethod::DELETE)
        } else if bit == 16 {
            Some(HttpMethod::PATCH)
        } else if bit == 32 {
            Some(HttpMethod::HEAD)
        } else if bit == 64 {
            Some(HttpMethod::OPTIONS)
        } else if bit == 128 {
            Some(HttpMethod::TRACE)
        } else {
            None
        }
    }

    /// The method's bit in an endpoint's method mask (its `repr(u16)` value).
    pub fn bits(self) -> (b: u16)
        ensures
            b == self.spec_bits(),
    {
        match self {
            HttpMethod::GET => 1,
            HttpMethod::PUT => 2,
            HttpMethod::POST => 4,
            HttpMethod::DELETE => 8,
            HttpMethod::PATCH => 16,
            HttpMethod::HEAD => 32,
            HttpMethod::OPTIONS => 64,
            HttpMethod::TRACE => 128,
            HttpMethod::INVALID => 0,
            HttpMethod::ALL => 0xffff,
        }
    }

    /// The method whose mask bit is `bit`, among GET to TRACE.
    pub fn from_bit(bit: u16) -> (m: Option<HttpMethod>)
        ensures
            m == Self::spec_from_bit(bit),
            m matches Some(x) ==> x.spec_bits() == bit,
    {
        if bit == 1 {
            Some(HttpMethod::GET)
        } else if bit == 2 {
            Some(HttpMethod::PUT)
        } else if bit == 4 {
            Some(HttpMethod::POST)
        } else if bit == 8 {
            Some(HttpMethod::DELETE)
        } else if bit == 16 {
            Some(HttpMethod::PATCH)
        } else if bit == 32 {
            Some(HttpMethod::HEAD)
        } else if bit == 64 {
            Some(HttpMethod::OPTIONS)
        } else if bit == 128 {
            Some(HttpMethod::TRACE)
        } else {
            None
        }
    }

    /// The method's name: what `Debug` and `Display` write.
    pub fn name(self) -> (s: &'static str)
        ensures
            s@ == self.spec_name(),
    {
        let s = match self {
            HttpMethod::GET => "GET",
            HttpMethod::PUT => "PUT",
            HttpMethod::POST => "POST",
            HttpMethod::DELETE => "DELETE",
            HttpMethod::PATCH => "PATCH",
            HttpMethod::HEAD => "HEAD",
            HttpMethod::OPTIONS => "OPTIONS",
            HttpMethod::TRACE => "TRACE",
            HttpMethod::INVALID => "INVALID",
            HttpMethod::ALL => "ALL",
        };
        proof {
            reveal_strlit("GET");
            reveal_strlit("PUT");
            reveal_strlit("POST");
            reveal_strlit("DELETE");
            reveal_strlit("PATCH");
            reveal_strlit("HEAD");
            reveal_strlit("OPTIONS");
            reveal_strlit("TRACE");
            reveal_strlit("INVALID");
            reveal_strlit("ALL");
        }
        s
    }

    /// The method's name as an owned string (the `Display` form).
    pub fn to_string(self) -> (s: String)
        ensures
            s@ == self.spec_name(),
    {
        let v = chars_of(self.name());
        string_of(&v)
    }

    /// The method with the given name, ignoring ASCII case; `INVALID` for any
    /// other name.
    pub fn from_name(value: &str) -> (m: HttpMethod)
        ensures
            m == method_named(value@),
    {
        let chars = chars_of(value);
        let u = upper_chars(&chars);
        let methods = [
            HttpMethod::GET,
            HttpMethod::PUT,
            HttpMethod::POST,
            HttpMethod::DELETE,
            HttpMethod::PATCH,
            HttpMethod::HEAD,
            HttpMethod::OPTIONS,
            HttpMethod::TRACE,
        ];
        let mut i: usize = 0;
        while i < 8
            invariant
                i <= 8,
                u@ == upper_seq(value@),
                methods@ == seq![
                    HttpMethod::GET,
                    HttpMethod::PUT,
                    HttpMethod::POST,
                    HttpMethod::DELETE,
                    HttpMethod::PATCH,
                    HttpMethod::HEAD,
                    HttpMethod::OPTIONS,
                    HttpMethod::TRACE,
                ],
                forall|j: int| 0 <= j < i ==> u@ != #[trigger] methods@[j].spec_name(),
            decreases 8 - i,
        {
            let candidate = methods[i];
            let name = chars_of(candidate.name());
            if chars_eq(&u, &name) {
                assert(forall|j: int| 0 <= j < i ==> u@ != #[trigger] methods@[j].spec_name());
                return candidate;
            }
            i = i + 1;
        }
        assert(u@ != methods@[0].spec_name());
        assert(u@ != methods@[1].spec_name());
        assert(u@ != methods@[2].spec_name());
        assert(u@ != methods@[3].spec_name());
        assert(u@ != methods@[4].spec_name());
        assert(u@ != methods@[5].spec_name());
        assert(u@ != methods@[6].spec_name());
        assert(u@ != methods@[7].spec_name());
        HttpMethod::INVALID
    }
}

/// Parsing a method's own name gives back the method, for every method
/// from GET to TRACE.
pub proof fn law_method_name_round_trip(m: HttpMethod)
    requires
        m != HttpMethod::INVALID,
        m != HttpMethod::ALL,
    ensures
        method_named(m.spec_name()) == m,
{
    assert(upper_seq(m.spec_name()) =~= m.spec_name());
}

/// Method names are matched without regard to ASCII case.
pub proof fn law_method_case_insensitive(a: Seq<char>, b: Seq<char>)
    requires
        upper_seq(a) == upper_seq(b),
    ensures
        method_named(a) == method_named(b),
{
}

/// The method a macro argument names by its variant's identifier, written
/// exactly (`GET`, ..., `TRACE`, `INVALID`, `ALL`).
pub open spec fn method_of_ident(name: Seq<char>) -> Option<HttpMethod> {
    if name == HttpMethod::GET.spec_name() {
        Some(HttpMethod::GET)
    } else if name == HttpMethod::PUT.spec_name() {
        Some(HttpMethod::PUT)
    } else if name == HttpMethod::POST.spec_name() {
        Some(HttpMethod::POST)
    } else if name == HttpMethod::DELETE.spec_name() {
        Some(HttpMethod::DELETE)
    } else if name == HttpMethod::PATCH.spec_name() {
        Some(HttpMethod::PATCH)
    } else if name == HttpMethod::HEAD.spec_name() {
        Some(HttpMethod::HEAD)
    } else if name == HttpMethod::OPTIONS.spec_name() {
        Some(HttpMethod::OPTIONS)
    } else if name == HttpMethod::TRACE.spec_name() {
        Some(HttpMethod::TRACE)
    } else if name == HttpMethod::INVALID.spec_name() {
        Some(HttpMethod::INVALID)
    } else if name == HttpMethod::ALL.spec_name() {
        Some(HttpMethod::ALL)
    } else {
        None
    }
}

/// The method mask of an endpoint declared with the methods named: the OR
/// of their bits (`ALL` gives every bit); `None` when a name is no method.
pub open spec fn mask_of_idents(names: Seq<Seq<char>>) -> Option<u16>
    decreases names.len(),
{
    if names.len() == 0 {
        Some(0u16)
    } else {
        match (mask_of_idents(names.drop_last()), method_of_ident(names.last())) {
            (Some(m), Some(x)) => Some(m | x.spec_bits()),
            _ => None,
        }
    }
}

fn is_named(name: &Vec<char>, m: HttpMethod) -> (b: bool)
    ensures
        b == (name@ == m.spec_name()),
{
    let n = chars_of(m.name());
    chars_eq(name, &n)
}

impl HttpMethod {
    /// The method a macro argument names by its variant's identifier.
    pub fn from_ident(name: &str) -> (m: Option<HttpMethod>)
        ensures
            m == method_of_ident(name@),
    {
        let v = chars_of(name);
        if is_named(&v, HttpMethod::GET) {
            Some(HttpMethod::GET)
        } else if is_named(&v, HttpMethod::PUT) {
            Some(HttpMethod::PUT)
        } else if is_named(&v, HttpMethod::POST) {
            Some(HttpMethod::POST)
        } else if is_named(&v, HttpMethod::DELETE) {
            Some(HttpMethod::DELETE)
        } else if is_named(&v, HttpMethod::PATCH) {
            Some(HttpMethod::PATCH)
        } else if is_named(&v, HttpMethod::HEAD) {
            Some(HttpMethod::HEAD)
        } else if is_named(&v, HttpMethod::OPTIONS) {
            Some(HttpMethod::OPTIONS)
        } else if is_named(&v, HttpMethod::TRACE) {
            Some(HttpMethod::TRACE)
        } else if is_named(&v, HttpMethod::INVALID) {
            Some(HttpMethod::INVALID)
        } else if is_named(&v, HttpMethod::ALL) {
            Some(HttpMethod::ALL)
        } else {
            None
        }
    }
}

/// The method mask of an endpoint declared with the methods named (see
/// `mask_of_idents`).
pub fn method_mask(names: &Vec<String>) -> (r: Option<u16>)
    ensures
        r == mask_of_idents(crate::text::string_views(names@)),
{
    let ghost ns = crate::text::string_views(names@);
    let mut mask: u16 = 0;
    let mut i: usize = 0;
    while i < names.len()
        invariant
            i <= names@.len(),
            ns == crate::text::string_views(names@),
            mask_of_idents(ns.take(i as int)) == Some(mask),
        decreases names@.len() - i,
    {
        assert(ns.take(i + 1).drop_last() =~= ns.take(i as int));
        assert(ns.take(i + 1).last() == names@[i as int]@);
        match HttpMethod::from_ident(names[i].as_str()) {
            Some(m) => {
                mask = mask | m.bits();
            },
            None => {
                proof {
                    lemma_mask_none(ns, i as int + 1);
                }
                assert(ns.take(ns.len() as int) =~= ns);
                return None;
            },
        }
        i = i + 1;
    }
    assert(ns.take(ns.len() as int) =~= ns);
    Some(mask)
}

proof fn lemma_mask_none(ns: Seq<Seq<char>>, i: int)
    requires
        0 <= i <= ns.len(),
        mask_of_idents(ns.take(i)) is None,
    ensures
        mask_of_idents(ns) is None,
    decreases ns.len() - i,
{
    if i < ns.len() {
        assert(ns.take(i + 1).drop_last() =~= ns.take(i));
        lemma_mask_none(ns, i + 1);
    } else {
        assert(ns.take(i) =~= ns);
    }
}

} // verus!
