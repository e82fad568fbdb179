//! The arguments of the endpoint macros: which names are known, which of
//! them a macro accepts, and how many times and with how many values each
//! may be given.
use vstd::prelude::*;

use crate::text::decimal;

verus! {

/// The arguments the endpoint macros know, each with a bit of its own.
#[derive(Clone, Copy, Debug, PartialEq, Eq, Structural, Hash)]
pub enum MacroArgumentType {
    Path,
    Router,
    Method,
    Header,
    Accepts,
    Responds,
    Summary,
    Description,
}

/// The bit of each argument.
pub open spec fn type_bit(t: MacroArgumentType) -> u16 {
    match t {
        MacroArgumentType::Path => 1,
        MacroArgumentType::Router => 2,
        MacroArgumentType::Method => 4,
        MacroArgumentType::Header => 8,
        MacroArgumentType::Accepts => 16,
        MacroArgumentType::Responds => 32,
        MacroArgumentType::Summary => 64,
        MacroArgumentType::Description => 128,
    }
}

/// The argument a name stands for.
pub open spec fn type_named(name: Seq<char>) -> Option<MacroArgumentType> {
    if name == "Path"@ {
        Some(MacroArgumentType::Path)
    } else if name == "Router"@ {
        Some(MacroArgumentType::Router)
    } else if name == "Method"@ {
        Some(MacroArgumentType::Method)
    } else if name == "Header"@ {
        Some(MacroArgumentType::Header)
    } else if name == "Accepts"@ {
        Some(MacroArgumentType::Accepts)
    } else if name == "Responds"@ {
        Some(MacroArgumentType::Responds)
    } else if name == "Summary"@ {
        Some(MacroArgumentType::Summary)
    } else if name == "Description"@ {
        Some(MacroArgumentType::Description)
    } else {
        None
    }
}

/// The name each argument goes by.
pub open spec fn argument_name(t: MacroArgumentType) -> Seq<char> {
    match t {
        MacroArgumentType::Path => "Path"@,
        MacroArgumentType::Router => "Router"@,
        MacroArgumentType::Method => "Method"@,
        MacroArgumentType::Header => "Header"@,
        MacroArgumentType::Accepts => "Accepts"@,
        MacroArgumentType::Responds => "Responds"@,
        MacroArgumentType::Summary => "Summary"@,
        MacroArgumentType::Description => "Description"@,
    }
}

/// Each argument is known by its own name.
pub proof fn law_type_name_round_trip(t: MacroArgumentType)
    ensures
        type_named(argument_name(t)) == Some(t),
{
    reveal_strlit("Path");
    reveal_strlit("Router");
    reveal_strlit("Method");
    reveal_strlit("Header");
    reveal_strlit("Accepts");
    reveal_strlit("Responds");
    reveal_strlit("Summary");
    reveal_strlit("Description");
    let names = seq![
        "Path"@,
        "Router"@,
        "Method"@,
        "Header"@,
        "Accepts"@,
        "Responds"@,
        "Summary"@,
        "Description"@,
    ];
    assert(names[0][0] == 'P' && names[1][0] == 'R' && names[2][0] == 'M' && names[3][0] == 'H'
        && names[4][0] == 'A' && names[5][0] == 'R' && names[6][0] == 'S' && names[7][0] == 'D');
    assert(names[1].len() == 6 && names[5].len() == 8);
}

/// Each argument has a bit of its own: no two share one.
pub proof fn law_type_bits_distinct(a: MacroArgumentType, b: MacroArgumentType)
    ensures
        type_bit(a) != 0,
        a != b ==> type_bit(a) & type_bit(b) == 0,
{
    let x = type_bit(a);
    let y = type_bit(b);
    assert(x != 0);
    assert(x != y ==> x & y == 0) by (bit_vector)
        requires
            x == 1 || x == 2 || x == 4 || x == 8 || x == 16 || x == 32 || x == 64 || x == 128,
            y == 1 || y == 2 || y == 4 || y == 8 || y == 16 || y == 32 || y == 64 || y == 128,
    ;
}

/// A set of bits made with an argument's bit holds it: an argument whose
/// type is `t` passes `validate` with `t.bitor_mask(mask)`.
pub proof fn law_bitor_accepts(t: MacroArgumentType, mask: u16)
    ensures
        type_bit(t) & (type_bit(t) | mask) != 0,
{
    let x = type_bit(t);
    assert(x != 0 ==> x & (x | mask) != 0) by (bit_vector);
}

/// Why the arguments of a macro were refused.
#[derive(Debug, PartialEq, Eq)]
pub enum ArgError {
    UnknownArgument,
    InvalidArgument,
    EmptyList,
    NotSingle,
    AtMostOne(String),
    Missing(String),
    WrongCount(usize),
}

/// The message of each error.
pub open spec fn arg_error_message(e: ArgError) -> Seq<char> {
    match e {
        ArgError::UnknownArgument => "Unknown Argument"@,
        ArgError::InvalidArgument => "Invalid Argument"@,
        ArgError::EmptyList => "Expected a single parameter, got an empty list"@,
        ArgError::NotSingle => "Expected a single parameter, got a list"@,
        ArgError::AtMostOne(n) => "Expected at most one `"@ + n@ + "` parameter"@,
        ArgError::Missing(n) => "Missing required argument: "@ + n@,
        ArgError::WrongCount(n) => "Expected 2 arguments, got "@ + decimal(n as nat),
    }
}

impl ArgError {
    /// The message the error is reported with.
    pub fn message(&self) -> (m: String)
        ensures
            m@ == arg_error_message(*self),
    {
        match self {
            ArgError::UnknownArgument => String::from_str("Unknown Argument"),
            ArgError::InvalidArgument => String::from_str("Invalid Argument"),
            ArgError::EmptyList => String::from_str(
                "Expected a single parameter, got an empty list",
            ),
            ArgError::NotSingle => String::from_str("Expected a single parameter, got a list"),
            ArgError::AtMostOne(n) => {
                let mut m = String::from_str("Expected at most one `");
                m.append(n.as_str());
                m.append("` parameter");
                m
            },
            ArgError::Missing(n) => {
                let mut m = String::from_str("Missing required argument: ");
                m.append(n.as_str());
                m
            },
            ArgError::WrongCount(n) => {
                let mut m = String::from_str("Expected 2 arguments, got ");
                m.append(crate::text::string_of(&crate::text::decimal_of(*n as u64)).as_str());
                m
            },
        }
    }
}

fn is_named(s: &str, lit: &str) -> (b: bool)
    ensures
        b == (s@ == lit@),
{
    let a = String::from_str(s);
    let l = String::from_str(lit);
    a == l
}

impl MacroArgumentType {
    /// The argument's bit.
    pub fn bits(self) -> (b: u16)
        ensures
            b == type_bit(self),
    {
        match self {
            MacroArgumentType::Path => 1,
            MacroArgumentType::Router => 2,
            MacroArgumentType::Method => 4,
            MacroArgumentType::Header => 8,
            MacroArgumentType::Accepts => 16,
            MacroArgumentType::Responds => 32,
            MacroArgumentType::Summary => 64,
            MacroArgumentType::Description => 128,
        }
    }

    /// The set of the two arguments' bits.
    pub fn bitor(self, rhs: MacroArgumentType) -> (b: u16)
        ensures
            b == type_bit(self) | type_bit(rhs),
    {
        self.bits() | rhs.bits()
    }

    /// The set of bits with this argument's added.
    pub fn bitor_mask(self, rhs: u16) -> (b: u16)
        ensures
            b == type_bit(self) | rhs,
    {
        self.bits() | rhs
    }

    /// The argument a name stands for.
    pub fn try_from(name: &str) -> (r: Result<MacroArgumentType, ArgError>)
        ensures
            match type_named(name@) {
                Some(t) => r == Ok::<MacroArgumentType, ArgError>(t),
                None => r == Err::<MacroArgumentType, ArgError>(ArgError::UnknownArgument),
            },
    {
        if is_named(name, "Path") {
            Ok(MacroArgumentType::Path)
        } else if is_named(name, "Router") {
            Ok(MacroArgumentType::Router)
        } else if is_named(name, "Method") {
            Ok(MacroArgumentType::Method)
        } else if is_named(name, "Header") {
            Ok(MacroArgumentType::Header)
        } else if is_named(name, "Accepts") {
            Ok(MacroArgumentType::Accepts)
        } else if is_named(name, "Responds") {
            Ok(MacroArgumentType::Responds)
        } else if is_named(name, "Summary") {
            Ok(MacroArgumentType::Summary)
        } else if is_named(name, "Description") {
            Ok(MacroArgumentType::Description)
        } else {
            Err(ArgError::UnknownArgument)
        }
    }
}

/// An argument of a macro: a name with one value, or with a list of values.
pub enum MacroArgument<E> {
    Single(String, E),
    List(String, Vec<E>),
}

/// The name of an argument.
pub open spec fn arg_name<E>(a: MacroArgument<E>) -> Seq<char> {
    match a {
        MacroArgument::Single(n, _) => n@,
        MacroArgument::List(n, _) => n@,
    }
}

/// The values of an argument.
pub open spec fn arg_values<E>(a: MacroArgument<E>) -> Seq<E> {
    match a {
        MacroArgument::Single(_, e) => seq![e],
        MacroArgument::List(_, v) => v@,
    }
}

impl<E> MacroArgument<E> {
    /// The argument's name.
    pub fn ident(&self) -> (n: &String)
        ensures
            n@ == arg_name(*self),
    {
        match self {
            MacroArgument::Single(n, _) => n,
            MacroArgument::List(n, _) => n,
        }
    }

    /// The argument's single value: a list of one value counts as one.
    pub fn single(&self) -> (r: Result<&E, ArgError>)
        ensures
            match *self {
                MacroArgument::Single(_, e) => r == Ok::<&E, ArgError>(&e),
                MacroArgument::List(_, v) => if v@.len() == 1 {
                    r == Ok::<&E, ArgError>(&v@[0])
                } else if v@.len() == 0 {
                    r == Err::<&E, ArgError>(ArgError::EmptyList)
                } else {
                    r == Err::<&E, ArgError>(ArgError::NotSingle)
                },
            },
    {
        match self {
            MacroArgument::Single(_, e) => Ok(e),
            MacroArgument::List(_, v) => {
                if v.len() <= 1 {
                    if v.len() == 1 {
                        Ok(&v[0])
                    } else {
                        Err(ArgError::EmptyList)
                    }
                } else {
                    Err(ArgError::NotSingle)
                }
            },
        }
    }

    /// The argument's values: its one value, or its list.
    pub fn list(&self) -> (r: Vec<&E>)
        ensures
            r@.len() == arg_values(*self).len(),
            forall|i: int| 0 <= i < r@.len() ==> *r@[i] == arg_values(*self)[i],
    {
        match self {
            MacroArgument::Single(_, e) => {
                let mut r: Vec<&E> = Vec::new();
                r.push(e);
                r
            },
            MacroArgument::List(_, v) => {
                let mut r: Vec<&E> = Vec::new();
                let mut i: usize = 0;
                while i < v.len()
                    invariant
                        i <= v@.len(),
                        r@.len() == i,
                        forall|j: int| 0 <= j < i ==> *r@[j] == v@[j],
                    decreases v@.len() - i,
                {
                    r.push(&v[i]);
                    i = i + 1;
                }
                r
            },
        }
    }

    /// The number of the argument's values.
    pub fn count(&self) -> (n: usize)
        ensures
            n == arg_values(*self).len(),
    {
        match self {
            MacroArgument::Single(_, _) => 1,
            MacroArgument::List(_, v) => v.len(),
        }
    }

    /// The argument's two values, in order.
    pub fn pair(&self) -> (r: Result<(&E, &E), ArgError>)
        ensures
            arg_values(*self).len() == 2 ==> r == Ok::<(&E, &E), ArgError>(
                (&arg_values(*self)[0], &arg_values(*self)[1]),
            ),
            arg_values(*self).len() != 2 ==> r == Err::<(&E, &E), ArgError>(
                ArgError::WrongCount(arg_values(*self).len() as usize),
            ),
    {
        match self {
            MacroArgument::Single(_, _) => Err(ArgError::WrongCount(1)),
            MacroArgument::List(_, v) => {
                if v.len() == 2 {
                    Ok((&v[0], &v[1]))
                } else {
                    Err(ArgError::WrongCount(v.len()))
                }
            },
        }
    }

    /// The argument, if its name is known and `fields` holds its bit.
    pub fn validate(self, fields: u16) -> (r: Result<MacroArgument<E>, ArgError>)
        ensures
            match type_named(arg_name(self)) {
                None => r == Err::<MacroArgument<E>, ArgError>(ArgError::UnknownArgument),
                Some(t) => if type_bit(t) & fields == 0 {
                    r == Err::<MacroArgument<E>, ArgError>(ArgError::InvalidArgument)
                } else {
                    r == Ok::<MacroArgument<E>, ArgError>(self)
                },
            },
    {
        let ty = match MacroArgumentType::try_from(self.ident().as_str()) {
            Ok(t) => t,
            Err(e) => return Err(e),
        };
        if ty.bits() & fields == 0 {
            return Err(ArgError::InvalidArgument);
        }
        Ok(self)
    }
}

/// Whether `e` says that `name` was given more than once.
pub open spec fn is_at_most_one(e: ArgError, name: Seq<char>) -> bool {
    e matches ArgError::AtMostOne(n) && n@ == name
}

/// Whether `e` says that `name` was not given.
pub open spec fn is_missing(e: ArgError, name: Seq<char>) -> bool {
    e matches ArgError::Missing(n) && n@ == name
}

/// The positions of the arguments named `name`, in order.
pub open spec fn positions<E>(args: Seq<MacroArgument<E>>, name: Seq<char>) -> Seq<usize>
    decreases args.len(),
{
    if args.len() == 0 {
        Seq::empty()
    } else if arg_name(args.last()) == name {
        positions(args.drop_last(), name).push((args.len() - 1) as usize)
    } else {
        positions(args.drop_last(), name)
    }
}

/// The positions of the arguments named `name`, in order.
pub fn repeatable_argument<E>(args: &Vec<MacroArgument<E>>, name: &str) -> (r: Vec<usize>)
    ensures
        r@ == positions(args@, name@),
{
    let mut r: Vec<usize> = Vec::new();
    let mut i: usize = 0;
    while i < args.len()
        invariant
            i <= args@.len(),
            r@ == positions(args@.take(i as int), name@),
        decreases args@.len() - i,
    {
        let n = args[i].ident();
        proof {
            assert(args@.take(i + 1).drop_last() =~= args@.take(i as int));
        }
        if is_named(n.as_str(), name) {
            r.push(i);
        }
        i = i + 1;
    }
    assert(args@.take(args@.len() as int) =~= args@);
    r
}

/// The position of the argument named `name`, if it is given; an error for
/// each time it is given after the first.
pub fn optional_argument<E>(args: &Vec<MacroArgument<E>>, name: &str) -> (r: Result<
    Option<usize>,
    Vec<ArgError>,
>)
    ensures
        ({
            let ps = positions(args@, name@);
            &&& ps.len() == 0 ==> r == Ok::<Option<usize>, Vec<ArgError>>(None)
            &&& ps.len() == 1 ==> r == Ok::<Option<usize>, Vec<ArgError>>(Some(ps[0]))
            &&& ps.len() > 1 ==> (r matches Err(es) && es@.len() == ps.len() - 1 && forall|i: int|
                0 <= i < es@.len() ==> is_at_most_one(#[trigger] es@[i], name@))
        }),
{
    let ps = repeatable_argument(args, name);
    if ps.len() > 1 {
        let mut es: Vec<ArgError> = Vec::new();
        let mut i: usize = 1;
        while i < ps.len()
            invariant
                1 <= i <= ps@.len(),
                es@.len() == i - 1,
                forall|j: int| 0 <= j < es@.len() ==> is_at_most_one(#[trigger] es@[j], name@),
            decreases ps@.len() - i,
        {
            es.push(ArgError::AtMostOne(String::from_str(name)));
            i = i + 1;
        }
        Err(es)
    } else if ps.len() == 1 {
        Ok(Some(ps[0]))
    } else {
        Ok(None)
    }
}

/// The position of the argument named `name`, which must be given once.
pub fn required_argument<E>(args: &Vec<MacroArgument<E>>, name: &str) -> (r: Result<
    usize,
    Vec<ArgError>,
>)
    ensures
        ({
            let ps = positions(args@, name@);
            &&& ps.len() == 0 ==> (r matches Err(es) && es@.len() == 1 && is_missing(es@[0], name@))
            &&& ps.len() == 1 ==> r == Ok::<usize, Vec<ArgError>>(ps[0])
            &&& ps.len() > 1 ==> r is Err
        }),
{
    match optional_argument(args, name) {
        Ok(Some(i)) => Ok(i),
        Ok(None) => {
            let es = vec![ArgError::Missing(String::from_str(name))];
            Err(es)
        },
        Err(es) => Err(es),
    }
}

/// The errors of the arguments named `name` that do not hold exactly two
/// values, in order.
pub open spec fn pair_errors<E>(args: Seq<MacroArgument<E>>, name: Seq<char>) -> Seq<ArgError>
    decreases args.len(),
{
    if args.len() == 0 {
        Seq::empty()
    } else {
        let rest = pair_errors(args.drop_last(), name);
        let a = args.last();
        if arg_name(a) == name && arg_values(a).len() != 2 {
            rest.push(ArgError::WrongCount(arg_values(a).len() as usize))
        } else {
            rest
        }
    }
}

/// The positions of the arguments named `name` (such as `Responds(code,
/// Type)`), each of which must hold two values; otherwise one error for each
/// argument that does not, in order.
pub fn paired_arguments<E>(args: &Vec<MacroArgument<E>>, name: &str) -> (r: Result<
    Vec<usize>,
    Vec<ArgError>,
>)
    ensures
        pair_errors(args@, name@).len() == 0 ==> (r matches Ok(ps) && ps@ == positions(
            args@,
            name@,
        )),
        pair_errors(args@, name@).len() > 0 ==> (r matches Err(es) && es@ == pair_errors(
            args@,
            name@,
        )),
{
    let ps = repeatable_argument(args, name);
    let mut es: Vec<ArgError> = Vec::new();
    let mut i: usize = 0;
    while i < args.len()
        invariant
            i <= args@.len(),
            es@ == pair_errors(args@.take(i as int), name@),
        decreases args@.len() - i,
    {
        proof {
            assert(args@.take(i + 1).drop_last() =~= args@.take(i as int));
        }
        let n = args[i].ident();
        if is_named(n.as_str(), name) {
            let c = args[i].count();
            if c != 2 {
                es.push(ArgError::WrongCount(c));
            }
        }
        i = i + 1;
    }
    assert(args@.take(args@.len() as int) =~= args@);
    if es.len() == 0 {
        Ok(ps)
    } else {
        Err(es)
    }
}

/// Why a handler function's signature was refused.
#[derive(Debug, PartialEq, Eq)]
pub enum SignatureError {
    NoLifetime,
    NoRequestResponse,
}

/// The message of each signature error.
pub open spec fn signature_error_message(e: SignatureError) -> Seq<char> {
    match e {
        SignatureError::NoLifetime => "Expected a lifetime parameter"@,
        SignatureError::NoRequestResponse => "Expected Request and Response arguments"@,
    }
}

impl SignatureError {
    /// The message the error is reported with.
    pub fn message(&self) -> (m: String)
        ensures
            m@ == signature_error_message(*self),
    {
        match self {
            SignatureError::NoLifetime => String::from_str("Expected a lifetime parameter"),
            SignatureError::NoRequestResponse => String::from_str(
                "Expected Request and Response arguments",
            ),
        }
    }
}

/// Checks the shape of a handler function from its number of lifetime
/// parameters and of inputs: it needs a lifetime, and then the request and
/// the response as its first two inputs. The lifetime is checked first.
pub fn check_handler_signature(lifetimes: usize, inputs: usize) -> (r: Result<(), SignatureError>)
    ensures
        lifetimes == 0 ==> r == Err::<(), SignatureError>(SignatureError::NoLifetime),
        lifetimes > 0 && inputs < 2 ==> r == Err::<(), SignatureError>(
            SignatureError::NoRequestResponse,
        ),
        lifetimes > 0 && inputs >= 2 ==> r is Ok,
{
    if lifetimes == 0 {
        Err(SignatureError::NoLifetime)
    } else if inputs < 2 {
        Err(SignatureError::NoRequestResponse)
    } else {
        Ok(())
    }
}

} // verus!
