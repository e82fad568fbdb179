//! Character-level text handling shared by the router, the HTTP layer and the
//! API description generator: splitting, joining, case folding and decimal
//! numbers, each with a specification over `Seq<char>` or `Seq<u8>`.
use vstd::prelude::*;

verus! {

// ------------------------------------------------------------------------
// Specifications
// ------------------------------------------------------------------------

/// Whether the pattern `p` occurs in `s` at position `j`.
pub open spec fn occurs_at(s: Seq<char>, p: Seq<char>, j: int) -> bool {
    0 <= j && j + p.len() <= s.len() && s.subrange(j, j + p.len()) == p
}

/// Index of the first occurrence of the non-empty pattern `p` in `s`.
pub open spec fn find_pat(s: Seq<char>, p: Seq<char>) -> Option<int>
    decreases s.len(),
{
    if p.len() == 0 || s.len() < p.len() {
        None
    } else if s.take(p.len() as int) == p {
        Some(0)
    } else {
        match find_pat(s.drop_first(), p) {
            Some(i) => Some(i + 1),
            None => None,
        }
    }
}

/// `str::split` with a non-empty pattern: the pieces between the
/// non-overlapping occurrences of `p`, scanned from the left.
pub open spec fn split_pat(s: Seq<char>, p: Seq<char>) -> Seq<Seq<char>>
    decreases s.len(),
{
    match find_pat(s, p) {
        Some(i) => if 0 <= i && i + p.len() <= s.len() && p.len() > 0 {
            seq![s.take(i)] + split_pat(s.skip(i + p.len()), p)
        } else {
            seq![s]
        },
        None => seq![s],
    }
}

/// The pieces one after the other.
pub open spec fn concat(ss: Seq<Seq<char>>) -> Seq<char>
    decreases ss.len(),
{
    if ss.len() == 0 {
        Seq::empty()
    } else {
        concat(ss.drop_last()) + ss.last()
    }
}

/// The pieces joined with `sep` between each two of them.
pub open spec fn join(parts: Seq<Seq<char>>, sep: Seq<char>) -> Seq<char>
    decreases parts.len(),
{
    if parts.len() == 0 {
        Seq::empty()
    } else if parts.len() == 1 {
        parts[0]
    } else {
        join(parts.drop_last(), sep) + sep + parts.last()
    }
}

/// `str::replace`: every occurrence of `from` (non-empty) replaced by `to`.
pub open spec fn replace(s: Seq<char>, from: Seq<char>, to: Seq<char>) -> Seq<char> {
    join(split_pat(s, from), to)
}

/// A line without its `\r` just before the `\n` that ended it.
pub open spec fn strip_cr(l: Seq<char>) -> Seq<char> {
    if l.len() > 0 && l.last() == '\r' {
        l.drop_last()
    } else {
        l
    }
}

/// `str::lines`: pieces ended by `\n` or `\r\n`; the final line ending is
/// optional and an empty text has no lines.
pub open spec fn lines(s: Seq<char>) -> Seq<Seq<char>>
    decreases s.len(),
{
    if s.len() == 0 {
        Seq::empty()
    } else {
        match find_pat(s, seq!['\n']) {
            Some(i) => if 0 <= i < s.len() {
                seq![strip_cr(s.take(i))] + lines(s.skip(i + 1))
            } else {
                seq![s]
            },
            None => seq![s],
        }
    }
}

/// Each line prefixed with two spaces, joined with `\n`.
pub open spec fn indent_spec(s: Seq<char>) -> Seq<char> {
    join(lines(s).map_values(|l: Seq<char>| seq![' ', ' '] + l), seq!['\n'])
}

/// `char::to_ascii_lowercase`.
pub open spec fn ascii_lower(c: char) -> char {
    if 'A' <= c <= 'Z' {
        ((c as u32) + 32) as char
    } else {
        c
    }
}

/// `char::to_ascii_uppercase`.
pub open spec fn ascii_upper(c: char) -> char {
    if 'a' <= c <= 'z' {
        ((c as u32) - 32) as char
    } else {
        c
    }
}

pub open spec fn lower_seq(s: Seq<char>) -> Seq<char> {
    s.map_values(|c: char| ascii_lower(c))
}

pub open spec fn upper_seq(s: Seq<char>) -> Seq<char> {
    s.map_values(|c: char| ascii_upper(c))
}

pub open spec fn digit_char(d: nat) -> char {
    ((d + 48) as u32) as char
}

/// Decimal notation of `n`, without sign or leading zeros.
pub open spec fn decimal(n: nat) -> Seq<char>
    decreases n,
{
    if n < 10 {
        seq![digit_char(n)]
    } else {
        decimal(n / 10).push(digit_char(n % 10))
    }
}

pub open spec fn is_digit_byte(b: u8) -> bool {
    48 <= b <= 57
}

pub open spec fn all_digits(s: Seq<u8>) -> bool {
    forall|i: int| 0 <= i < s.len() ==> is_digit_byte(#[trigger] s[i])
}

/// The value of a string of decimal digits.
pub open spec fn digits_value(s: Seq<u8>) -> nat
    decreases s.len(),
{
    if s.len() == 0 {
        0
    } else {
        digits_value(s.drop_last()) * 10 + (s.last() - 48) as nat
    }
}

/// What `from_str_radix(.., 10)` of an unsigned type reads from `s`, before
/// the range check: an optional `+`, then one or more decimal digits.
pub open spec fn unsigned_decimal(s: Seq<u8>) -> Option<nat> {
    let d = if s.len() > 0 && s[0] == 43u8 {
        s.drop_first()
    } else {
        s
    };
    if d.len() > 0 && all_digits(d) {
        Some(digits_value(d))
    } else {
        None
    }
}

/// `u64::from_str_radix(.., 10)` on the text whose UTF-8 bytes are `s`.
pub open spec fn parse_u64_spec(s: Seq<u8>) -> Option<u64> {
    match unsigned_decimal(s) {
        Some(v) => if v <= u64::MAX {
            Some(v as u64)
        } else {
            None
        },
        None => None,
    }
}

/// `usize::from_str_radix(.., 10)` on the text whose UTF-8 bytes are `s`.
pub open spec fn parse_usize_spec(s: Seq<u8>) -> Option<usize> {
    match unsigned_decimal(s) {
        Some(v) => if v <= usize::MAX {
            Some(v as usize)
        } else {
            None
        },
        None => None,
    }
}

pub open spec fn views(v: Seq<Vec<char>>) -> Seq<Seq<char>> {
    v.map_values(|x: Vec<char>| x@)
}

// ------------------------------------------------------------------------
// Lemmas
// ------------------------------------------------------------------------

proof fn lemma_find_pat_bounds(s: Seq<char>, p: Seq<char>)
    ensures
        find_pat(s, p) matches Some(i) ==> 0 <= i && i + p.len() <= s.len() && p.len() > 0
            && s.subrange(i, i + p.len()) == p,
    decreases s.len(),
{
    if p.len() == 0 || s.len() < p.len() {
    } else if s.take(p.len() as int) == p {
    } else {
        lemma_find_pat_bounds(s.drop_first(), p);
        if let Some(i) = find_pat(s.drop_first(), p) {
            assert(s.drop_first().subrange(i, i + p.len()) =~= s.subrange(i + 1, i + 1 + p.len()));
        }
    }
}

proof fn lemma_join_prepend(a: Seq<char>, rest: Seq<Seq<char>>, sep: Seq<char>)
    requires
        rest.len() >= 1,
    ensures
        join(seq![a] + rest, sep) == a + sep + join(rest, sep),
    decreases rest.len(),
{
    let all = seq![a] + rest;
    if rest.len() == 1 {
        assert(all.drop_last() =~= seq![a]);
        assert(join(seq![a], sep) == a);
        assert(all.last() == rest[0]);
        assert(join(rest, sep) == rest[0]);
        assert(join(all, sep) == join(all.drop_last(), sep) + sep + all.last());
    } else {
        lemma_join_prepend(a, rest.drop_last(), sep);
        assert(all.drop_last() =~= seq![a] + rest.drop_last());
        assert(all.last() == rest.last());
        assert(join(all, sep) =~= a + sep + join(rest, sep));
    }
}

/// Joining the pieces of a split with the character it was split at gives
/// the text back.
pub proof fn lemma_join_split(s: Seq<char>, c: char)
    ensures
        join(split_pat(s, seq![c]), seq![c]) == s,
    decreases s.len(),
{
    let p = seq![c];
    lemma_find_pat_bounds(s, p);
    match find_pat(s, p) {
        Some(i) => {
            let rest = s.skip(i + 1);
            lemma_split_pat_nonempty(rest, p);
            lemma_join_split(rest, c);
            lemma_join_prepend(s.take(i), split_pat(rest, p), p);
            assert(s.subrange(i, i + 1)[0] == s[i]);
            assert(s =~= s.take(i) + p + rest);
        },
        None => {},
    }
}

/// Skipping `k` characters that hold no match keeps the first match, shifted.
proof fn lemma_find_pat_skip(s: Seq<char>, p: Seq<char>, k: int)
    requires
        0 <= k <= s.len(),
        p.len() > 0,
        forall|j: int| 0 <= j < k ==> !#[trigger] occurs_at(s, p, j),
    ensures
        find_pat(s, p) == (match find_pat(s.skip(k), p) {
            Some(i) => Some(i + k),
            None => None::<int>,
        }),
    decreases k,
{
    if k == 0 {
        assert(s.skip(0) =~= s);
    } else {
        if s.len() < p.len() {
            assert(find_pat(s, p) is None);
            assert(find_pat(s.skip(k), p) is None);
        } else {
            assert(!occurs_at(s, p, 0));
            assert(s.take(p.len() as int) =~= s.subrange(0, p.len() as int));
            assert(find_pat(s, p) == (match find_pat(s.drop_first(), p) {
                Some(i) => Some(i + 1),
                None => None::<int>,
            }));
            assert forall|j: int| 0 <= j < k - 1 implies !#[trigger] occurs_at(s.drop_first(), p, j) by {
                assert(!occurs_at(s, p, j + 1));
                if j + p.len() <= s.drop_first().len() {
                    assert(s.drop_first().subrange(j, j + p.len()) =~= s.subrange(j + 1, j + 1 + p.len()));
                }
            }
            lemma_find_pat_skip(s.drop_first(), p, k - 1);
            assert(s.drop_first().skip(k - 1) =~= s.skip(k));
        }
    }
}

proof fn lemma_find_pat_here(s: Seq<char>, p: Seq<char>)
    requires
        p.len() > 0,
        p.len() <= s.len(),
        s.subrange(0, p.len() as int) == p,
    ensures
        find_pat(s, p) == Some(0int),
{
    assert(s.take(p.len() as int) =~= s.subrange(0, p.len() as int));
}

proof fn lemma_find_pat_none(s: Seq<char>, p: Seq<char>)
    requires
        p.len() > 0,
        forall|j: int| 0 <= j ==> !#[trigger] occurs_at(s, p, j),
    ensures
        find_pat(s, p) is None,
    decreases s.len(),
{
    if s.len() < p.len() {
    } else {
        assert(!occurs_at(s, p, 0));
        assert(s.take(p.len() as int) =~= s.subrange(0, p.len() as int));
        assert forall|j: int| 0 <= j implies !#[trigger] occurs_at(s.drop_first(), p, j) by {
            assert(!occurs_at(s, p, j + 1));
            if j + p.len() <= s.drop_first().len() {
                assert(s.drop_first().subrange(j, j + p.len()) =~= s.subrange(j + 1, j + 1 + p.len()));
            }
        }
        lemma_find_pat_none(s.drop_first(), p);
    }
}

pub proof fn lemma_split_pat_nonempty(s: Seq<char>, p: Seq<char>)
    ensures
        split_pat(s, p).len() >= 1,
    decreases s.len(),
{
    lemma_find_pat_bounds(s, p);
    match find_pat(s, p) {
        Some(i) => if 0 <= i && i + p.len() <= s.len() && p.len() > 0 {
            lemma_split_pat_nonempty(s.skip(i + p.len()), p);
        },
        None => {},
    }
}

proof fn lemma_join_push(parts: Seq<Seq<char>>, x: Seq<char>, sep: Seq<char>)
    requires
        parts.len() >= 1,
    ensures
        join(parts.push(x), sep) == join(parts, sep) + sep + x,
{
    assert(parts.push(x).drop_last() =~= parts);
}

proof fn lemma_digits_value_prefix(s: Seq<u8>, i: int, j: int)
    requires
        0 <= i <= j <= s.len(),
    ensures
        digits_value(s.take(i)) <= digits_value(s.take(j)),
    decreases j - i,
{
    if i < j {
        lemma_digits_value_prefix(s, i, j - 1);
        assert(s.take(j).drop_last() =~= s.take(j - 1));
    }
}

/// Whether the character `c` occurs nowhere in `s`.
pub open spec fn lacks(s: Seq<char>, c: char) -> bool {
    forall|i: int| 0 <= i < s.len() ==> s[i] != c
}

proof fn lemma_find_single_none(s: Seq<char>, c: char)
    requires
        lacks(s, c),
    ensures
        find_pat(s, seq![c]) is None,
{
    assert forall|j: int| 0 <= j implies !#[trigger] occurs_at(s, seq![c], j) by {
        if j + 1 <= s.len() {
            assert(s.subrange(j, j + 1)[0] == s[j]);
        }
    }
    lemma_find_pat_none(s, seq![c]);
}

/// A text without the separator is a single piece.
pub proof fn lemma_split_single(s: Seq<char>, c: char)
    requires
        lacks(s, c),
    ensures
        split_pat(s, seq![c]) == seq![s],
{
    lemma_find_single_none(s, c);
}

/// Splitting at a single character distributes over a separator between
/// two texts.
pub proof fn lemma_split_concat(a: Seq<char>, c: char, b: Seq<char>)
    ensures
        split_pat(a + seq![c] + b, seq![c]) == split_pat(a, seq![c]) + split_pat(b, seq![c]),
    decreases a.len(),
{
    let p = seq![c];
    let s = a + p + b;
    lemma_find_pat_bounds(a, p);
    lemma_find_pat_bounds(s, p);
    match find_pat(a, p) {
        Some(i) => {
            // the first separator of `s` is the first one of `a`
            assert forall|j: int| 0 <= j < i implies !#[trigger] occurs_at(s, p, j) by {
                if occurs_at(s, p, j) {
                    assert(s.subrange(j, j + 1)[0] == s[j]);
                    assert(a[j] == c);
                    assert(occurs_at(a, p, j)) by {
                        assert(a.subrange(j, j + 1) =~= p);
                    }
                    lemma_find_first(a, p, j);
                }
            }
            lemma_find_pat_skip(s, p, i);
            assert(s.skip(i).subrange(0, 1) =~= p) by {
                assert(a.subrange(i, i + 1) == p);
                assert(s[i] == a[i]);
            }
            lemma_find_pat_here(s.skip(i), p);
            assert(find_pat(s, p) == Some(i));
            assert(s.take(i) =~= a.take(i));
            assert(s.skip(i + 1) =~= a.skip(i + 1) + p + b);
            lemma_split_concat(a.skip(i + 1), c, b);
        },
        None => {
            assert forall|j: int| 0 <= j < a.len() implies !#[trigger] occurs_at(s, p, j) by {
                if occurs_at(s, p, j) {
                    assert(s.subrange(j, j + 1)[0] == s[j]);
                    assert(occurs_at(a, p, j)) by {
                        assert(a.subrange(j, j + 1) =~= p);
                    }
                    lemma_find_first(a, p, j);
                }
            }
            lemma_find_pat_skip(s, p, a.len() as int);
            assert(s.skip(a.len() as int).subrange(0, 1) =~= p);
            lemma_find_pat_here(s.skip(a.len() as int), p);
            assert(find_pat(s, p) == Some(a.len() as int));
            assert(s.take(a.len() as int) =~= a);
            assert(s.skip(a.len() as int + 1) =~= b);
        },
    }
}

/// An occurrence at `j` means some occurrence is found, no later than `j`.
proof fn lemma_find_first(s: Seq<char>, p: Seq<char>, j: int)
    requires
        occurs_at(s, p, j),
        p.len() > 0,
    ensures
        find_pat(s, p) matches Some(i) && i <= j,
    decreases j,
{
    if j == 0 {
        lemma_find_pat_here(s, p);
    } else if s.take(p.len() as int) == p {
    } else {
        assert(occurs_at(s.drop_first(), p, j - 1)) by {
            assert(s.drop_first().subrange(j - 1, j - 1 + p.len()) =~= s.subrange(j, j + p.len()));
        }
        lemma_find_first(s.drop_first(), p, j - 1);
    }
}

/// Splitting a join at its separator gives back the pieces, when no piece
/// holds the separator.
pub proof fn lemma_split_join(parts: Seq<Seq<char>>, c: char)
    requires
        parts.len() >= 1,
        forall|i: int| 0 <= i < parts.len() ==> lacks(#[trigger] parts[i], c),
    ensures
        split_pat(join(parts, seq![c]), seq![c]) == parts,
    decreases parts.len(),
{
    if parts.len() == 1 {
        lemma_split_single(parts[0], c);
        assert(seq![parts[0]] =~= parts);
    } else {
        let init = parts.drop_last();
        lemma_split_join(init, c);
        lemma_split_concat(join(init, seq![c]), c, parts.last());
        lemma_split_single(parts.last(), c);
        assert(init + seq![parts.last()] =~= parts);
    }
}

/// A join holds only characters of its pieces and of the separator.
pub proof fn lemma_join_lacks(parts: Seq<Seq<char>>, sep: Seq<char>, c: char)
    requires
        lacks(sep, c),
        forall|i: int| 0 <= i < parts.len() ==> lacks(#[trigger] parts[i], c),
    ensures
        lacks(join(parts, sep), c),
    decreases parts.len(),
{
    if parts.len() >= 2 {
        lemma_join_lacks(parts.drop_last(), sep, c);
        let j = join(parts.drop_last(), sep);
        assert forall|i: int| 0 <= i < (j + sep + parts.last()).len() implies (j + sep
            + parts.last())[i] != c by {
            if i < j.len() {
            } else if i < j.len() + sep.len() {
                assert((j + sep + parts.last())[i] == sep[i - j.len()]);
            } else {
                assert((j + sep + parts.last())[i] == parts.last()[i - j.len() - sep.len()]);
            }
        }
    }
}

// ------------------------------------------------------------------------
// Executable helpers
// ------------------------------------------------------------------------

/// The characters of a string slice, in order.
pub fn chars_of(s: &str) -> (v: Vec<char>)
    ensures
        v@ == s@,
{
    let mut v: Vec<char> = Vec::new();
    for c in it: s.chars()
        invariant
            v@ == it.seq().take(it.index() as int),
    {
        v.push(c);
    }
    v
}

/// The string made of these characters: `String::from_iter`, which gives
/// a string holding the characters it is handed, in order.
#[verifier::external_body]
pub(crate) fn string_of(v: &Vec<char>) -> (s: String)
    ensures
        s@ == v@,
{
    String::from_iter(v.iter())
}

/// The UTF-8 encoding of a string slice.
pub fn bytes_of(s: &str) -> (v: Vec<u8>)
    ensures
        v@ == vstd::utf8::encode_utf8(s@),
{
    let b = s.as_bytes();
    vstd::slice::slice_to_vec(b)
}

/// A copy of `s[from..to]`.
pub fn slice_chars(s: &Vec<char>, from: usize, to: usize) -> (v: Vec<char>)
    requires
        from <= to <= s@.len(),
    ensures
        v@ == s@.subrange(from as int, to as int),
{
    let mut v: Vec<char> = Vec::new();
    let mut i = from;
    while i < to
        invariant
            from <= i <= to <= s@.len(),
            v@ == s@.subrange(from as int, i as int),
        decreases to - i,
    {
        v.push(s[i]);
        i = i + 1;
        assert(v@ =~= s@.subrange(from as int, i as int));
    }
    v
}

/// Appends `b` to `a`.
pub fn push_all(a: &mut Vec<char>, b: &Vec<char>)
    ensures
        final(a)@ == old(a)@ + b@,
{
    let mut i: usize = 0;
    while i < b.len()
        invariant
            i <= b@.len(),
            a@ == old(a)@ + b@.take(i as int),
        decreases b@.len() - i,
    {
        a.push(b[i]);
        i = i + 1;
        assert(a@ =~= old(a)@ + b@.take(i as int));
    }
    assert(b@.take(b@.len() as int) =~= b@);
}

/// Appends the characters of `b` to `a`.
pub fn push_str(a: &mut Vec<char>, b: &str)
    ensures
        final(a)@ == old(a)@ + b@,
{
    let v = chars_of(b);
    push_all(a, &v);
}

/// Character-wise equality.
pub fn chars_eq(a: &Vec<char>, b: &Vec<char>) -> (r: bool)
    ensures
        r == (a@ == b@),
{
    if a.len() != b.len() {
        return false;
    }
    let mut i: usize = 0;
    while i < a.len()
        invariant
            a@.len() == b@.len(),
            i <= a@.len(),
            forall|j: int| 0 <= j < i ==> a@[j] == b@[j],
        decreases a@.len() - i,
    {
        if a[i] != b[i] {
            return false;
        }
        i = i + 1;
    }
    assert(a@ =~= b@);
    true
}

pub fn lower_char(c: char) -> (r: char)
    ensures
        r == ascii_lower(c),
{
    if 'A' <= c && c <= 'Z' {
        let b: u8 = c as u8;
        ((b + 32) as u8) as char
    } else {
        c
    }
}

pub fn upper_char(c: char) -> (r: char)
    ensures
        r == ascii_upper(c),
{
    if 'a' <= c && c <= 'z' {
        let b: u8 = c as u8;
        ((b - 32) as u8) as char
    } else {
        c
    }
}

/// `to_ascii_uppercase` of a character sequence.
pub fn upper_chars(s: &Vec<char>) -> (v: Vec<char>)
    ensures
        v@ == upper_seq(s@),
{
    let mut v: Vec<char> = Vec::new();
    let mut i: usize = 0;
    while i < s.len()
        invariant
            i <= s@.len(),
            v@ == upper_seq(s@.take(i as int)),
        decreases s@.len() - i,
    {
        let c = upper_char(s[i]);
        v.push(c);
        i = i + 1;
        assert(v@ =~= upper_seq(s@.take(i as int)));
    }
    assert(s@.take(s@.len() as int) =~= s@);
    v
}

/// `to_ascii_lowercase` of a character sequence.
pub fn lower_chars(s: &Vec<char>) -> (v: Vec<char>)
    ensures
        v@ == lower_seq(s@),
{
    let mut v: Vec<char> = Vec::new();
    let mut i: usize = 0;
    while i < s.len()
        invariant
            i <= s@.len(),
            v@ == lower_seq(s@.take(i as int)),
        decreases s@.len() - i,
    {
        let c = lower_char(s[i]);
        v.push(c);
        i = i + 1;
        assert(v@ =~= lower_seq(s@.take(i as int)));
    }
    assert(s@.take(s@.len() as int) =~= s@);
    v
}

/// The text of each string, in order.
pub open spec fn string_views(v: Seq<String>) -> Seq<Seq<char>> {
    v.map_values(|s: String| s@)
}

/// The characters of each string, in order.
pub fn chars_of_all(v: &Vec<String>) -> (r: Vec<Vec<char>>)
    ensures
        views(r@) == string_views(v@),
{
    let mut r: Vec<Vec<char>> = Vec::new();
    let mut i: usize = 0;
    while i < v.len()
        invariant
            i <= v@.len(),
            r@.len() == i,
            forall|j: int| 0 <= j < i ==> (#[trigger] r@[j])@ == v@[j]@,
        decreases v@.len() - i,
    {
        let c = chars_of(v[i].as_str());
        r.push(c);
        i = i + 1;
    }
    assert(views(r@) =~= string_views(v@));
    r
}

/// Whether `s`, lowered to ASCII lower case, equals `lit`.
pub fn eq_lower(s: &Vec<char>, lit: &Vec<char>) -> (r: bool)
    ensures
        r == (lower_seq(s@) == lit@),
{
    if s.len() != lit.len() {
        return false;
    }
    let mut i: usize = 0;
    while i < s.len()
        invariant
            s@.len() == lit@.len(),
            i <= s@.len(),
            forall|j: int| 0 <= j < i ==> ascii_lower(s@[j]) == lit@[j],
        decreases s@.len() - i,
    {
        if lower_char(s[i]) != lit[i] {
            assert(lower_seq(s@)[i as int] != lit@[i as int]);
            return false;
        }
        i = i + 1;
    }
    assert(lower_seq(s@) =~= lit@);
    true
}

/// Whether `p` occurs in `s` at position `at`.
fn matches_at(s: &Vec<char>, at: usize, p: &Vec<char>) -> (r: bool)
    requires
        at + p@.len() <= s@.len(),
    ensures
        r == (s@.subrange(at as int, at + p@.len()) == p@),
{
    let slen = s.len();
    let mut k: usize = 0;
    while k < p.len()
        invariant
            slen == s@.len(),
            at + p@.len() <= s@.len(),
            k <= p@.len(),
            forall|j: int| 0 <= j < k ==> s@[at + j] == p@[j],
        decreases p@.len() - k,
    {
        if s[at + k] != p[k] {
            assert(s@.subrange(at as int, at + p@.len())[k as int] != p@[k as int]);
            return false;
        }
        k = k + 1;
    }
    assert(s@.subrange(at as int, at + p@.len()) =~= p@);
    true
}

/// The first occurrence of the non-empty pattern `p` in `s[from..]`, as an
/// index into `s`.
pub fn find_from(s: &Vec<char>, from: usize, p: &Vec<char>) -> (r: Option<usize>)
    requires
        from <= s@.len(),
        p@.len() > 0,
    ensures
        r matches Some(i) ==> find_pat(s@.skip(from as int), p@) == Some(i - from),
        r is None ==> find_pat(s@.skip(from as int), p@) is None,
        r matches Some(i) ==> from <= i && i + p@.len() <= s@.len() && s@.subrange(
            i as int,
            i + p@.len(),
        ) == p@,
{
    let ghost t = s@.skip(from as int);
    let slen = s.len();
    let plen = p.len();
    if plen > slen {
        proof {
            lemma_find_pat_none(t, p@);
        }
        return None;
    }
    let mut j = from;
    while j <= slen - plen
        invariant
            slen == s@.len(),
            plen == p@.len(),
            plen <= slen,
            from <= j <= s@.len(),
            p@.len() > 0,
            t == s@.skip(from as int),
            forall|q: int| 0 <= q < j - from ==> !#[trigger] occurs_at(t, p@, q),
        decreases s@.len() - j,
    {
        if matches_at(s, j, p) {
            proof {
                assert(t.subrange(j - from, j - from + p@.len()) =~= s@.subrange(
                    j as int,
                    j + p@.len(),
                ));
                lemma_find_pat_skip(t, p@, j - from);
                assert(t.skip(j - from) =~= s@.skip(j as int));
                assert(s@.skip(j as int).subrange(0, p@.len() as int) =~= s@.subrange(
                    j as int,
                    j + p@.len(),
                ));
                lemma_find_pat_here(s@.skip(j as int), p@);
            }
            return Some(j);
        }
        proof {
            assert(t.subrange(j - from, j - from + p@.len()) =~= s@.subrange(
                j as int,
                j + p@.len(),
            ));
        }
        j = j + 1;
    }
    proof {
        assert forall|q: int| 0 <= q implies !#[trigger] occurs_at(t, p@, q) by {
            if q >= j - from {
                assert(q + p@.len() > t.len());
            }
        }
        lemma_find_pat_none(t, p@);
    }
    None
}

/// `str::split` with a non-empty pattern.
pub fn split_by(s: &Vec<char>, p: &Vec<char>) -> (parts: Vec<Vec<char>>)
    requires
        p@.len() > 0,
    ensures
        views(parts@) == split_pat(s@, p@),
{
    let mut parts: Vec<Vec<char>> = Vec::new();
    let mut start: usize = 0;
    let slen = s.len();
    proof {
        assert(s@.skip(0) =~= s@);
        assert(views(parts@) + split_pat(s@, p@) =~= split_pat(s@, p@));
    }
    loop
        invariant
            slen == s@.len(),
            start <= s@.len(),
            p@.len() > 0,
            views(parts@) + split_pat(s@.skip(start as int), p@) == split_pat(s@, p@),
        decreases s@.len() - start,
    {
        let ghost rest = s@.skip(start as int);
        match find_from(s, start, p) {
            Some(i) => {
                let piece = slice_chars(s, start, i);
                proof {
                    lemma_find_pat_bounds(rest, p@);
                    assert(rest.take(i - start) =~= s@.subrange(start as int, i as int));
                    assert(rest.skip(i - start + p@.len()) =~= s@.skip(i + p@.len()));
                    assert(split_pat(rest, p@) == seq![rest.take(i - start)] + split_pat(
                        rest.skip(i - start + p@.len()),
                        p@,
                    ));
                    assert(views(parts@.push(piece)) =~= views(parts@).push(piece@));
                    assert(views(parts@).push(piece@) + split_pat(s@.skip(i + p@.len()), p@)
                        =~= views(parts@) + (seq![piece@] + split_pat(s@.skip(i + p@.len()), p@)));
                }
                parts.push(piece);
                start = i + p.len();
            },
            None => {
                let piece = slice_chars(s, start, s.len());
                proof {
                    assert(rest =~= s@.subrange(start as int, s@.len() as int));
                    assert(split_pat(rest, p@) == seq![rest]);
                    assert(views(parts@.push(piece)) =~= views(parts@).push(piece@));
                }
                parts.push(piece);
                assert(views(parts@) =~= split_pat(s@, p@));
                return parts;
            },
        }
    }
}

/// The pieces joined with `sep`.
pub fn join_with(parts: &Vec<Vec<char>>, sep: &Vec<char>) -> (r: Vec<char>)
    ensures
        r@ == join(views(parts@), sep@),
{
    let mut r: Vec<char> = Vec::new();
    let mut i: usize = 0;
    while i < parts.len()
        invariant
            i <= parts@.len(),
            r@ == join(views(parts@.take(i as int)), sep@),
        decreases parts@.len() - i,
    {
        proof {
            assert(views(parts@.take(i + 1)) =~= views(parts@.take(i as int)).push(parts@[i as int]@));
        }
        if i > 0 {
            push_all(&mut r, sep);
            proof {
                lemma_join_push(views(parts@.take(i as int)), parts@[i as int]@, sep@);
            }
        } else {
            assert(views(parts@.take(1)) =~= seq![parts@[0]@]);
        }
        push_all(&mut r, &parts[i]);
        i = i + 1;
    }
    assert(parts@.take(parts@.len() as int) =~= parts@);
    r
}

/// `str::replace` with a non-empty pattern.
pub fn replace_all(s: &Vec<char>, from: &Vec<char>, to: &Vec<char>) -> (r: Vec<char>)
    requires
        from@.len() > 0,
    ensures
        r@ == replace(s@, from@, to@),
{
    let parts = split_by(s, from);
    join_with(&parts, to)
}

/// `str::lines`.
pub fn lines_of(s: &Vec<char>) -> (ls: Vec<Vec<char>>)
    ensures
        views(ls@) == lines(s@),
{
    let nl = vec!['\n'];
    let mut ls: Vec<Vec<char>> = Vec::new();
    let mut start: usize = 0;
    proof {
        assert(s@.skip(0) =~= s@);
        assert(views(ls@) + lines(s@) =~= lines(s@));
    }
    while start < s.len()
        invariant
            start <= s@.len(),
            nl@ == seq!['\n'],
            views(ls@) + lines(s@.skip(start as int)) == lines(s@),
        decreases s@.len() - start,
    {
        let ghost rest = s@.skip(start as int);
        match find_from(s, start, &nl) {
            Some(i) => {
                let mut end = i;
                if end > start && s[end - 1] == '\r' {
                    end = end - 1;
                }
                let piece = slice_chars(s, start, end);
                proof {
                    assert(rest.take(i - start) =~= s@.subrange(start as int, i as int));
                    assert(piece@ =~= strip_cr(rest.take(i - start)));
                    assert(rest.skip(i - start + 1) =~= s@.skip(i + 1));
                    assert(lines(rest) == seq![strip_cr(rest.take(i - start))] + lines(
                        rest.skip(i - start + 1),
                    ));
                    assert(views(ls@.push(piece)) =~= views(ls@).push(piece@));
                    assert(views(ls@).push(piece@) + lines(s@.skip(i + 1)) =~= views(ls@) + (
                    seq![piece@] + lines(s@.skip(i + 1))));
                }
                ls.push(piece);
                start = i + 1;
            },
            None => {
                let piece = slice_chars(s, start, s.len());
                proof {
                    assert(rest =~= s@.subrange(start as int, s@.len() as int));
                    assert(lines(rest) == seq![rest]);
                    assert(views(ls@.push(piece)) =~= views(ls@).push(piece@));
                    assert(s@.skip(s@.len() as int) =~= Seq::<char>::empty());
                    assert(lines(Seq::<char>::empty()) == Seq::<Seq<char>>::empty());
                }
                ls.push(piece);
                start = s.len();
            },
        }
    }
    proof {
        assert(s@.skip(start as int) =~= Seq::<char>::empty());
        assert(lines(Seq::<char>::empty()) == Seq::<Seq<char>>::empty());
        assert(views(ls@) + Seq::<Seq<char>>::empty() =~= views(ls@));
    }
    ls
}

/// Decimal notation of `n`.
pub fn decimal_of(n: u64) -> (v: Vec<char>)
    ensures
        v@ == decimal(n as nat),
    decreases n,
{
    let d: u8 = (n % 10) as u8;
    let c: char = ((48u8 + d) as u8) as char;
    assert(c == digit_char((n % 10) as nat));
    if n < 10 {
        vec![c]
    } else {
        let mut v = decimal_of(n / 10);
        v.push(c);
        v
    }
}

/// `u64::from_str_radix(.., 10)` on UTF-8 bytes.
pub fn parse_u64(s: &[u8]) -> (r: Option<u64>)
    ensures
        r == parse_u64_spec(s@),
{
    let mut start: usize = 0;
    if s.len() > 0 && s[0] == 43u8 {
        start = 1;
    }
    let ghost d = if s@.len() > 0 && s@[0] == 43u8 {
        s@.drop_first()
    } else {
        s@
    };
    assert(d =~= s@.skip(start as int));
    if start >= s.len() {
        return None;
    }
    let mut acc: u64 = 0;
    let mut i = start;
    while i < s.len()
        invariant
            start <= i <= s@.len(),
            d == s@.skip(start as int),
            acc as nat == digits_value(d.take(i - start)),
            d == (if s@.len() > 0 && s@[0] == 43u8 {
                s@.drop_first()
            } else {
                s@
            }),
            forall|j: int| 0 <= j < i - start ==> is_digit_byte(#[trigger] d[j]),
        decreases s@.len() - i,
    {
        let b = s[i];
        if b < 48u8 || b > 57u8 {
            assert(!is_digit_byte(d[i - start]));
            return None;
        }
        proof {
            assert(d.take(i - start + 1).drop_last() =~= d.take(i - start));
        }
        let m = acc.checked_mul(10);
        match m {
            None => {
                proof {
                    lemma_overflow_rest(s@, d, start as int, i as int);
                }
                return None;
            },
            Some(m) => {
                let a = m.checked_add((b - 48u8) as u64);
                match a {
                    None => {
                        proof {
                            lemma_overflow_rest(s@, d, start as int, i as int);
                        }
                        return None;
                    },
                    Some(a) => {
                        acc = a;
                    },
                }
            },
        }
        i = i + 1;
    }
    assert(d.take(i - start) =~= d);
    Some(acc)
}

/// Once the digits read so far overflow, every reading of the whole text does.
proof fn lemma_overflow_rest(s: Seq<u8>, d: Seq<u8>, start: int, i: int)
    requires
        0 <= start <= i < s.len(),
        d == s.skip(start),
        d == (if s.len() > 0 && s[0] == 43u8 {
            s.drop_first()
        } else {
            s
        }),
        digits_value(d.take(i - start)) * 10 + (s[i] - 48) > u64::MAX,
        is_digit_byte(s[i]),
    ensures
        unsigned_decimal(s) matches Some(v) ==> v > u64::MAX,
{
    assert(d.take(i - start + 1).drop_last() =~= d.take(i - start));
    lemma_digits_value_prefix(d, i - start + 1, d.len() as int);
    assert(d.take(d.len() as int) =~= d);
}

} // verus!
