//! Text building blocks shared by the SQL generators: comparison, joining,
//! quoting, decimal formatting and ordering.

use vstd::prelude::*;
use vstd::relations::{sorted_by, total_ordering};
use vstd::string::StringSliceAdditionalSpecFns;

verus! {

/// `String::push` appends the given character to the end of the string.
pub assume_specification[ String::push ](s: &mut String, c: char)
    ensures
        final(s)@ == old(s)@.push(c),
;

/// A text with its ASCII letters in lower case.
pub open spec fn lower(s: Seq<char>) -> Seq<char> {
    s.map_values(|c: char| lower_char(c))
}

/// An ASCII letter in lower case.
pub open spec fn lower_char(c: char) -> char {
    if 'A' <= c <= 'Z' {
        ((c as u32) + 32) as char
    } else {
        c
    }
}

/// Whether two strings hold the same characters.
pub fn str_eq(a: &str, b: &str) -> (same: bool)
    ensures
        same == (a@ == b@),
{
    let x: &[u8] = a.as_bytes();
    let y: &[u8] = b.as_bytes();
    proof {
        vstd::utf8::encode_utf8_decode_utf8(a@);
        vstd::utf8::encode_utf8_decode_utf8(b@);
    }
    if x.len() != y.len() {
        return false;
    }
    let mut i: usize = 0;
    while i < x.len()
        invariant
            x@ == a.spec_bytes(),
            y@ == b.spec_bytes(),
            x.len() == y.len(),
            i <= x.len(),
            forall|j: int| 0 <= j < i ==> x@[j] == y@[j],
        decreases x.len() - i,
    {
        if x[i] != y[i] {
            return false;
        }
        i += 1;
    }
    assert(x@ =~= y@);
    true
}

/// The characters of a string, in order.
pub fn to_chars(s: &str) -> (chars: Vec<char>)
    ensures
        chars@ == s@,
{
    let mut chars: Vec<char> = Vec::new();
    for c in it: s.chars()
        invariant
            it.seq() == s@,
            chars@ == s@.take(it.index() as int),
    {
        chars.push(c);
    }
    assert(s@.take(s@.len() as int) =~= s@);
    chars
}

/// The string that holds the given characters.
pub fn from_chars(chars: &[char]) -> (s: String)
    ensures
        s@ == chars@,
{
    let mut s: String = String::new();
    let mut i: usize = 0;
    while i < chars.len()
        invariant
            i <= chars.len(),
            s@ == chars@.take(i as int),
        decreases chars.len() - i,
    {
        s.push(chars[i]);
        i += 1;
    }
    assert(chars@.take(chars@.len() as int) =~= chars@);
    s
}

/// The contents of each string of a sequence.
pub open spec fn texts(v: Seq<String>) -> Seq<Seq<char>> {
    v.map_values(|s: String| s@)
}

/// `parts` one after another, with `separator` between neighbours.
pub open spec fn joined(parts: Seq<Seq<char>>, separator: Seq<char>) -> Seq<char>
    decreases parts.len(),
{
    if parts.len() == 0 {
        Seq::empty()
    } else if parts.len() == 1 {
        parts[0]
    } else {
        joined(parts.drop_last(), separator) + separator + parts.last()
    }
}

/// Joins strings with a separator.
pub fn join(parts: &Vec<String>, separator: &str) -> (s: String)
    ensures
        s@ == joined(texts(parts@), separator@),
{
    let mut s: String = String::new();
    let mut i: usize = 0;
    while i < parts.len()
        invariant
            i <= parts.len(),
            s@ == joined(texts(parts@).take(i as int), separator@),
        decreases parts.len() - i,
    {
        if i > 0 {
            s.append(separator);
        }
        s.append(parts[i].as_str());
        proof {
            let head = texts(parts@).take(i as int);
            let next = texts(parts@).take(i + 1);
            assert(next.drop_last() =~= head);
            assert(next.last() == parts@[i as int]@);
            if i == 0 {
                assert(s@ =~= next[0]);
            }
        }
        i += 1;
    }
    assert(texts(parts@).take(parts@.len() as int) =~= texts(parts@));
    s
}

/// `s` with every occurrence of `c` written twice.
pub open spec fn doubled(s: Seq<char>, c: char) -> Seq<char>
    decreases s.len(),
{
    if s.len() == 0 {
        Seq::empty()
    } else if s.last() == c {
        doubled(s.drop_last(), c).push(c).push(c)
    } else {
        doubled(s.drop_last(), c).push(s.last())
    }
}

/// Writes every occurrence of `c` twice.
pub fn double_char(s: &str, c: char) -> (out: String)
    ensures
        out@ == doubled(s@, c),
{
    let chars: Vec<char> = to_chars(s);
    let mut out: String = String::new();
    let mut i: usize = 0;
    while i < chars.len()
        invariant
            i <= chars.len(),
            chars@ == s@,
            out@ == doubled(s@.take(i as int), c),
        decreases chars.len() - i,
    {
        proof {
            assert(s@.take(i + 1).drop_last() =~= s@.take(i as int));
        }
        if chars[i] == c {
            out.push(c);
        }
        out.push(chars[i]);
        i += 1;
    }
    assert(s@.take(s@.len() as int) =~= s@);
    out
}

/// Escapes an identifier so that it can stand between double quotes.
pub fn escape_identifier(name: &str) -> (out: String)
    ensures
        out@ == doubled(name@, '"'),
{
    double_char(name, '"')
}

/// A value as an SQL string literal.
pub open spec fn literal(value: Seq<char>) -> Seq<char> {
    "'"@ + doubled(value, '\'') + "'"@
}

/// Writes a value as an SQL string literal.
pub fn quote_literal(value: &str) -> (out: String)
    ensures
        out@ == literal(value@),
{
    let mut out: String = "'".to_owned();
    out.append(double_char(value, '\'').as_str());
    out.append("'");
    out
}

/// A name between double quotes, as is.
pub open spec fn quoted(name: Seq<char>) -> Seq<char> {
    "\""@ + name + "\""@
}

/// Puts a name between double quotes.
pub fn quote(name: &str) -> (out: String)
    ensures
        out@ == quoted(name@),
{
    let mut out: String = "\"".to_owned();
    out.append(name);
    out.append("\"");
    out
}

/// `"schema"."name"`
pub open spec fn qualified(schema: Seq<char>, name: Seq<char>) -> Seq<char> {
    quoted(schema) + "."@ + quoted(name)
}

/// Writes a schema-qualified name.
pub fn qualify(schema: &str, name: &str) -> (out: String)
    ensures
        out@ == qualified(schema@, name@),
{
    let mut out: String = quote(schema);
    out.append(".");
    out.append(quote(name).as_str());
    out
}

/// One value between two pieces of text.
pub fn around(before: &str, value: &str, after: &str) -> (out: String)
    ensures
        out@ == before@ + value@ + after@,
{
    let mut out: String = before.to_owned();
    out.append(value);
    out.append(after);
    out
}

/// The decimal digit for a number below ten.
pub open spec fn digit(d: nat) -> char {
    (('0' as nat) + d) as char
}

/// A natural number in decimal, without leading zeros.
pub open spec fn decimal(n: nat) -> Seq<char>
    decreases n,
{
    if n < 10 {
        seq![digit(n)]
    } else {
        decimal(n / 10).push(digit(n % 10))
    }
}

fn digit_char(d: u128) -> (c: char)
    requires
        d < 10,
    ensures
        c == digit(d as nat),
{
    let b: u8 = 48u8 + d as u8;
    b as char
}

/// Writes a number in decimal.
pub fn decimal_string(n: u128) -> (out: String)
    ensures
        out@ == decimal(n as nat),
    decreases n,
{
    if n < 10 {
        let mut out: String = String::new();
        out.push(digit_char(n));
        assert(out@ =~= decimal(n as nat));
        out
    } else {
        let mut out: String = decimal_string(n / 10);
        out.push(digit_char(n % 10));
        out
    }
}

/// An integer in decimal, with a sign where it is negative.
pub open spec fn signed_decimal(n: int) -> Seq<char> {
    if n < 0 {
        "-"@ + decimal((-n) as nat)
    } else {
        decimal(n as nat)
    }
}

/// Writes a signed number in decimal.
pub fn signed_decimal_string(n: i64) -> (out: String)
    ensures
        out@ == signed_decimal(n as int),
{
    if n < 0 {
        let mut out: String = "-".to_owned();
        let magnitude: u128 = (-(n + 1)) as u128 + 1;
        out.append(decimal_string(magnitude).as_str());
        out
    } else {
        decimal_string(n as u128)
    }
}

/// Lexicographic order by code point, which is also the order of the UTF-8 bytes.
pub open spec fn text_le(a: Seq<char>, b: Seq<char>) -> bool
    decreases a.len(),
{
    if a.len() == 0 {
        true
    } else if b.len() == 0 {
        false
    } else if a[0] == b[0] {
        text_le(a.drop_first(), b.drop_first())
    } else {
        (a[0] as u32) < (b[0] as u32)
    }
}

/// The order by which names are sorted.
pub open spec fn text_order() -> spec_fn(Seq<char>, Seq<char>) -> bool {
    |a: Seq<char>, b: Seq<char>| text_le(a, b)
}

proof fn lemma_text_le_total(a: Seq<char>, b: Seq<char>)
    ensures
        text_le(a, a),
        text_le(a, b) || text_le(b, a),
        text_le(a, b) && text_le(b, a) ==> a == b,
    decreases a.len(),
{
    if a.len() > 0 {
        lemma_text_le_total(a.drop_first(), a.drop_first());
        if b.len() > 0 {
            vstd::utf8::char_u32_cast(a[0], a[0] as u32);
            vstd::utf8::char_u32_cast(b[0], b[0] as u32);
        }
        if b.len() > 0 && a[0] == b[0] {
            lemma_text_le_total(a.drop_first(), b.drop_first());
            if text_le(a, b) && text_le(b, a) {
                assert(a =~= seq![a[0]] + a.drop_first());
                assert(b =~= seq![b[0]] + b.drop_first());
            }
        }
    } else if b.len() == 0 {
        assert(a =~= b);
    }
}

proof fn lemma_text_le_transitive(a: Seq<char>, b: Seq<char>, c: Seq<char>)
    requires
        text_le(a, b),
        text_le(b, c),
    ensures
        text_le(a, c),
    decreases a.len(),
{
    if a.len() > 0 && b.len() > 0 && c.len() > 0 && a[0] == b[0] && b[0] == c[0] {
        lemma_text_le_transitive(a.drop_first(), b.drop_first(), c.drop_first());
    }
}

/// The order of names is a total order.
pub proof fn lemma_text_order()
    ensures
        total_ordering(text_order()),
{
    let leq = text_order();
    assert forall|a: Seq<char>| #[trigger] leq(a, a) by {
        lemma_text_le_total(a, a);
    }
    assert forall|a: Seq<char>, b: Seq<char>| #[trigger] leq(a, b) && #[trigger] leq(b, a) implies a == b by {
        lemma_text_le_total(a, b);
    }
    assert forall|a: Seq<char>, b: Seq<char>, c: Seq<char>| #[trigger] leq(a, b) && #[trigger] leq(b, c) implies leq(a, c) by {
        lemma_text_le_transitive(a, b, c);
    }
    assert forall|a: Seq<char>, b: Seq<char>| #[trigger] leq(a, b) || #[trigger] leq(b, a) by {
        lemma_text_le_total(a, b);
    }
}

/// Whether one string sorts no later than another.
pub fn str_le(a: &str, b: &str) -> (le: bool)
    ensures
        le == text_le(a@, b@),
{
    let x: Vec<char> = to_chars(a);
    let y: Vec<char> = to_chars(b);
    let mut i: usize = 0;
    proof {
        assert(a@.skip(0) =~= a@);
        assert(b@.skip(0) =~= b@);
    }
    while i < x.len()
        invariant
            x@ == a@,
            y@ == b@,
            i <= x.len(),
            i <= y.len(),
            text_le(a@, b@) == text_le(a@.skip(i as int), b@.skip(i as int)),
        decreases x.len() - i,
    {
        proof {
            assert(a@.skip(i as int).drop_first() =~= a@.skip(i + 1));
            if i < y.len() {
                assert(b@.skip(i as int).drop_first() =~= b@.skip(i + 1));
            }
        }
        if i >= y.len() {
            return false;
        }
        if x[i] != y[i] {
            let c: char = x[i];
            let d: char = y[i];
            return (c as u32) < (d as u32);
        }
        i += 1;
    }
    true
}

/// The names of a list in sorted order.
pub open spec fn sorted_texts(names: Seq<Seq<char>>) -> Seq<Seq<char>> {
    names.sort_by(text_order())
}

/// A list is the sorted form of another exactly where it is sorted and holds
/// the same names, each as often.
pub proof fn lemma_sorted_texts(names: Seq<Seq<char>>, out: Seq<Seq<char>>)
    requires
        sorted_by(out, text_order()),
        out.to_multiset() == names.to_multiset(),
    ensures
        out == sorted_texts(names),
{
    lemma_text_order();
    names.lemma_sort_by_ensures(text_order());
    vstd::seq_lib::lemma_sorted_unique(out, sorted_texts(names), text_order());
}

/// Two lists have the same sorted form exactly where they hold the same names,
/// each as often.
pub proof fn lemma_sorted_texts_same(a: Seq<Seq<char>>, b: Seq<Seq<char>>)
    ensures
        sorted_texts(a) == sorted_texts(b) <==> a.to_multiset() == b.to_multiset(),
{
    lemma_text_order();
    a.lemma_sort_by_ensures(text_order());
    b.lemma_sort_by_ensures(text_order());
    if a.to_multiset() == b.to_multiset() {
        lemma_sorted_texts(b, sorted_texts(a));
    }
}

/// Sorts strings.
pub fn sort_strings(names: &Vec<String>) -> (out: Vec<String>)
    ensures
        texts(out@) == sorted_texts(texts(names@)),
{
    let mut out: Vec<String> = Vec::new();
    let mut i: usize = 0;
    proof {
        assert(texts(out@).to_multiset() =~= texts(names@).take(0).to_multiset()) by {
            assert(texts(out@) =~= texts(names@).take(0));
        }
    }
    while i < names.len()
        invariant
            i <= names.len(),
            out.len() == i,
            sorted_by(texts(out@), text_order()),
            texts(out@).to_multiset() == texts(names@).take(i as int).to_multiset(),
        decreases names.len() - i,
    {
        let mut at: usize = 0;
        while at < out.len() && str_le(out[at].as_str(), names[i].as_str())
            invariant
                i < names.len(),
                at <= out.len(),
                forall|j: int| 0 <= j < at ==> text_le(#[trigger] texts(out@)[j], names@[i as int]@),
            ensures
                at <= out.len(),
                forall|j: int| 0 <= j < at ==> text_le(#[trigger] texts(out@)[j], names@[i as int]@),
                at < out.len() ==> !text_le(out@[at as int]@, names@[i as int]@),
            decreases out.len() - at,
        {
            at += 1;
        }
        let ghost before = texts(out@);
        let ghost name = names@[i as int]@;
        out.insert(at, names[i].clone());
        proof {
            lemma_text_order();
            let leq = text_order();
            assert(texts(out@) =~= before.insert(at as int, name));
            assert forall|j: int, k: int| 0 <= j < k < out@.len() implies #[trigger] leq(
                texts(out@)[j],
                texts(out@)[k],
            ) by {
                let grown = before.insert(at as int, name);
                let b = |m: int| if m < at { before[m] } else { before[m - 1] };
                if k == at {
                    assert(text_le(before[j], name));
                } else if j == at {
                    lemma_text_le_total(before[at as int], name);
                    if k - 1 > at {
                        assert(leq(before[at as int], before[k - 1]));
                        lemma_text_le_transitive(name, before[at as int], before[k - 1]);
                    }
                } else {
                    assert(leq(b(j), b(k)));
                }
            }
            vstd::seq_lib::to_multiset_insert(before, at as int, name);
            assert(texts(names@).take(i + 1) =~= texts(names@).take(i as int).push(name));
            vstd::seq_lib::to_multiset_build(texts(names@).take(i as int), name);
        }
        i += 1;
    }
    proof {
        assert(texts(names@).take(names@.len() as int) =~= texts(names@));
        lemma_sorted_texts(texts(names@), texts(out@));
    }
    out
}

} // verus!
