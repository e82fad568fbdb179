//! Routing by files: the names that the files of an API directory give the
//! modules and routes of their endpoints.
use vstd::prelude::*;

use crate::text::{chars_of, replace, replace_all, slice_chars, split_by, split_pat, string_of, string_views, views};

verus! {

/// Whether `s` starts with `p`.
pub open spec fn has_prefix(s: Seq<char>, p: Seq<char>) -> bool {
    p.len() <= s.len() && s.take(p.len() as int) == p
}

/// Whether `s` ends with `p`.
pub open spec fn has_suffix(s: Seq<char>, p: Seq<char>) -> bool {
    p.len() <= s.len() && s.skip(s.len() - p.len()) == p
}

/// `s` without the prefix `p`, or `s` where it does not start with it.
pub open spec fn strip_prefix_or(s: Seq<char>, p: Seq<char>) -> Seq<char> {
    if has_prefix(s, p) {
        s.skip(p.len() as int)
    } else {
        s
    }
}

/// `s` without the suffix `p`, or `s` where it does not end with it.
pub open spec fn strip_suffix_or(s: Seq<char>, p: Seq<char>) -> Seq<char> {
    if has_suffix(s, p) {
        s.take(s.len() - p.len())
    } else {
        s
    }
}

fn strip_prefix_chars(s: &Vec<char>, p: &str) -> (r: Vec<char>)
    ensures
        r@ == strip_prefix_or(s@, p@),
{
    let pc = chars_of(p);
    if pc.len() <= s.len() {
        let head = slice_chars(s, 0, pc.len());
        if crate::text::chars_eq(&head, &pc) {
            assert(head@ =~= s@.take(pc@.len() as int));
            let r = slice_chars(s, pc.len(), s.len());
            assert(r@ =~= s@.skip(pc@.len() as int));
            return r;
        }
        assert(head@ =~= s@.take(pc@.len() as int));
    }
    slice_chars(s, 0, s.len())
}

fn strip_suffix_chars(s: &Vec<char>, p: &str) -> (r: Vec<char>)
    ensures
        r@ == strip_suffix_or(s@, p@),
{
    let pc = chars_of(p);
    if pc.len() <= s.len() {
        let tail = slice_chars(s, s.len() - pc.len(), s.len());
        if crate::text::chars_eq(&tail, &pc) {
            assert(tail@ =~= s@.skip(s@.len() - pc@.len()));
            let r = slice_chars(s, 0, s.len() - pc.len());
            assert(r@ =~= s@.take(s@.len() - pc@.len()));
            return r;
        }
        assert(tail@ =~= s@.skip(s@.len() - pc@.len()));
    }
    let r = slice_chars(s, 0, s.len());
    assert(r@ =~= s@);
    r
}

/// The directory of the API's files, relative to the file that declares
/// the router: the argument without a leading `./`, then without a leading
/// `/`.
pub open spec fn base_path_spec(path: Seq<char>) -> Seq<char> {
    strip_prefix_or(strip_prefix_or(path, "./"@), "/"@)
}

/// The directory of the API's files, relative to the declaring file.
pub fn base_path(path: &str) -> (r: String)
    ensures
        r@ == base_path_spec(path@),
{
    let cs = chars_of(path);
    let a = strip_prefix_chars(&cs, "./");
    string_of(&strip_prefix_chars(&a, "/"))
}

/// The path of an endpoint file with slashes made underscores, `[`
/// dropped, `]` made an underscore and `%` dropped.
pub open spec fn module_chars(rel: Seq<char>) -> Seq<char> {
    let a = replace(rel, seq!['/'], seq!['_']);
    let b = replace(a, seq!['['], Seq::empty());
    let c = replace(b, seq![']'], seq!['_']);
    replace(c, seq!['%'], Seq::empty())
}

/// The name of the module of an endpoint file, from its path in the API
/// directory: `__endpoint_`, then `module_chars` of the path without its
/// final `.rs`.
pub open spec fn module_ident_spec(rel: Seq<char>) -> Seq<char> {
    let d = module_chars(rel);
    "__endpoint_"@ + d.take(d.len() - 3)
}

/// The name of the module of an endpoint file (see `module_ident_spec`).
/// What the replacements leave of the path ends in `.rs`.
pub fn module_ident(rel: &str) -> (r: String)
    requires
        has_suffix(module_chars(rel@), seq!['.', 'r', 's']),
    ensures
        r@ == module_ident_spec(rel@),
{
    let cs = chars_of(rel);
    let slash = vec!['/'];
    let open = vec!['['];
    let close = vec![']'];
    let pct = vec!['%'];
    let under = vec!['_'];
    let none: Vec<char> = Vec::new();
    assert(slash@ =~= seq!['/']);
    assert(open@ =~= seq!['[']);
    assert(close@ =~= seq![']']);
    assert(pct@ =~= seq!['%']);
    assert(under@ =~= seq!['_']);
    assert(none@ =~= Seq::<char>::empty());
    let a = replace_all(&cs, &slash, &under);
    let b = replace_all(&a, &open, &none);
    let c = replace_all(&b, &close, &under);
    let d = replace_all(&c, &pct, &none);
    let stem = slice_chars(&d, 0, d.len() - 3);
    let mut r = String::from_str("__endpoint_");
    r.append(string_of(&stem).as_str());
    r
}

/// Whether a file of the API directory can be an endpoint module: what the
/// replacements of `module_chars` leave of its path ends in `.rs`, as
/// `module_ident` needs.
pub fn is_endpoint_file(rel: &str) -> (b: bool)
    ensures
        b == has_suffix(module_chars(rel@), seq!['.', 'r', 's']),
{
    let cs = chars_of(rel);
    let slash = vec!['/'];
    let open = vec!['['];
    let close = vec![']'];
    let pct = vec!['%'];
    let under = vec!['_'];
    let none: Vec<char> = Vec::new();
    assert(slash@ =~= seq!['/']);
    assert(open@ =~= seq!['[']);
    assert(close@ =~= seq![']']);
    assert(pct@ =~= seq!['%']);
    assert(under@ =~= seq!['_']);
    assert(none@ =~= Seq::<char>::empty());
    let a = replace_all(&cs, &slash, &under);
    let b = replace_all(&a, &open, &none);
    let c = replace_all(&b, &close, &under);
    let d = replace_all(&c, &pct, &none);
    let n = d.len();
    if n >= 3 && d[n - 3] == '.' && d[n - 2] == 'r' && d[n - 1] == 's' {
        assert(d@.skip(n - 3) =~= seq!['.', 'r', 's']);
        true
    } else {
        proof {
            if n >= 3 && d@.skip(n - 3) == seq!['.', 'r', 's'] {
                assert(d@.skip(n - 3)[0] == d@[n - 3]);
                assert(d@.skip(n - 3)[1] == d@[n - 2]);
                assert(d@.skip(n - 3)[2] == d@[n - 1]);
            }
        }
        false
    }
}

/// The route path of an endpoint file, from its path in the API directory:
/// without `.rs`, then without `mod`, then without a final `/`, each where
/// it is there.
pub open spec fn endpoint_path_spec(rel: Seq<char>) -> Seq<char> {
    strip_suffix_or(strip_suffix_or(strip_suffix_or(rel, ".rs"@), "mod"@), "/"@)
}

/// The route path of an endpoint file (see `endpoint_path_spec`).
pub fn endpoint_path(rel: &str) -> (r: String)
    ensures
        r@ == endpoint_path_spec(rel@),
{
    let cs = chars_of(rel);
    let a = strip_suffix_chars(&cs, ".rs");
    let b = strip_suffix_chars(&a, "mod");
    string_of(&strip_suffix_chars(&b, "/"))
}

/// The route an endpoint file is served under: its route path split at
/// each slash.
pub fn default_route(rel: &str) -> (segments: Vec<String>)
    ensures
        string_views(segments@) == split_pat(endpoint_path_spec(rel@), seq!['/']),
{
    let p = endpoint_path(rel);
    let cs = chars_of(p.as_str());
    let slash = vec!['/'];
    assert(slash@ =~= seq!['/']);
    let parts = split_by(&cs, &slash);
    let mut segments: Vec<String> = Vec::new();
    let mut i: usize = 0;
    while i < parts.len()
        invariant
            i <= parts@.len(),
            segments@.len() == i,
            forall|j: int| 0 <= j < i ==> (#[trigger] segments@[j])@ == parts@[j]@,
        decreases parts@.len() - i,
    {
        segments.push(string_of(&parts[i]));
        i = i + 1;
    }
    assert(string_views(segments@) =~= views(parts@));
    segments
}

/// A router declared for routing by files: the components of its API
/// directory's path, if it routes by files, and the name of its static.
pub struct RouterEntry {
    pub basepath: Option<Vec<String>>,
    pub ident: String,
}

/// Whether the components `base` begin the components `path`.
pub open spec fn is_component_prefix(path: Seq<String>, base: Seq<String>) -> bool {
    base.len() <= path.len() && forall|i: int| 0 <= i < base.len() ==> (#[trigger] base[i])@ == path[i]@
}

/// Whether a router's directory holds the file.
pub open spec fn holds_file(r: RouterEntry, file: Seq<String>) -> bool {
    match r.basepath {
        Some(b) => is_component_prefix(file, b@),
        None => false,
    }
}

/// The first router whose directory holds the file.
pub open spec fn router_of_file(routers: Seq<RouterEntry>, file: Seq<String>) -> Option<int>
    decreases routers.len(),
{
    if routers.len() == 0 {
        None
    } else if holds_file(routers[0], file) {
        Some(0)
    } else {
        match router_of_file(routers.drop_first(), file) {
            Some(i) => Some(i + 1),
            None => None,
        }
    }
}

fn component_prefix(path: &Vec<String>, base: &Vec<String>) -> (b: bool)
    ensures
        b == is_component_prefix(path@, base@),
{
    if base.len() > path.len() {
        return false;
    }
    let mut i: usize = 0;
    while i < base.len()
        invariant
            base@.len() <= path@.len(),
            i <= base@.len(),
            forall|j: int| 0 <= j < i ==> (#[trigger] base@[j])@ == path@[j]@,
        decreases base@.len() - i,
    {
        if base[i] != path[i] {
            return false;
        }
        i = i + 1;
    }
    true
}

/// The router that an endpoint file belongs to: the first whose directory
/// holds it, by the components of the paths.
pub fn router_for(routers: &Vec<RouterEntry>, file: &Vec<String>) -> (r: Option<usize>)
    ensures
        match r {
            Some(i) => router_of_file(routers@, file@) == Some(i as int),
            None => router_of_file(routers@, file@) is None,
        },
{
    let mut i: usize = 0;
    assert(routers@.skip(0) =~= routers@);
    while i < routers.len()
        invariant
            i <= routers@.len(),
            router_of_file(routers@, file@) == match router_of_file(routers@.skip(i as int), file@) {
                Some(k) => Some(k + i),
                None => None,
            },
        decreases routers@.len() - i,
    {
        let ghost rest = routers@.skip(i as int);
        assert(rest[0] == routers@[i as int]);
        assert(rest.drop_first() =~= routers@.skip(i + 1));
        let holds = match &routers[i].basepath {
            Some(b) => component_prefix(file, b),
            None => false,
        };
        if holds {
            return Some(i);
        }
        i = i + 1;
    }
    None
}

/// The path of an endpoint file in the directory of the router it belongs
/// to: its components after the directory's, joined with slashes.
pub fn file_in_router(routers: &Vec<RouterEntry>, file: &Vec<String>) -> (r: Option<String>)
    ensures
        match router_of_file(routers@, file@) {
            Some(i) => r matches Some(p) && p@ == crate::text::join(
                string_views(file@.skip(routers@[i].basepath->0@.len() as int)),
                seq!['/'],
            ),
            None => r is None,
        },
{
    match router_for(routers, file) {
        None => None,
        Some(i) => {
            proof {
                lemma_router_of_file_holds(routers@, file@);
            }
            let n = match &routers[i].basepath {
                Some(b) => b.len(),
                None => 0,
            };
            let mut rest: Vec<String> = Vec::new();
            let mut j: usize = n;
            while j < file.len()
                invariant
                    n <= j <= file@.len(),
                    rest@ == file@.subrange(n as int, j as int),
                decreases file@.len() - j,
            {
                rest.push(file[j].clone());
                assert(file@.subrange(n as int, j + 1) =~= file@.subrange(n as int, j as int).push(file@[j as int]));
                j = j + 1;
            }
            assert(rest@ =~= file@.skip(n as int));
            let slash = vec!['/'];
            assert(slash@ =~= seq!['/']);
            let parts = crate::text::chars_of_all(&rest);
            Some(string_of(&crate::text::join_with(&parts, &slash)))
        },
    }
}

proof fn lemma_router_of_file_holds(routers: Seq<RouterEntry>, file: Seq<String>)
    ensures
        router_of_file(routers, file) matches Some(i) ==> 0 <= i < routers.len() && holds_file(
            routers[i],
            file,
        ),
    decreases routers.len(),
{
    if routers.len() > 0 && !holds_file(routers[0], file) {
        lemma_router_of_file_holds(routers.drop_first(), file);
    }
}

} // verus!
