//! How texts are quoted, joined and put in order.

use vstd::prelude::*;

use crate::text::{
    decimal, doubled, joined, literal, lower, qualified, quoted, signed_decimal, text_le,
};

verus! {

/// A character is doubled wherever it stands, and every other one is kept: what is made
/// of a text is made of its parts.
pub proof fn law_quotes_are_doubled(a: Seq<char>, b: Seq<char>, c: char, x: char)
    ensures
        doubled(a + b, c) == doubled(a, c) + doubled(b, c),
        doubled(Seq::empty(), c) == Seq::<char>::empty(),
        doubled(seq![c], c) == seq![c, c],
        x != c ==> doubled(seq![x], c) == seq![x],
    decreases b.len(),
{
    reveal_with_fuel(doubled, 2);
    assert(seq![c].drop_last() =~= Seq::<char>::empty());
    assert(seq![x].drop_last() =~= Seq::<char>::empty());
    assert(doubled(seq![c], c) =~= seq![c, c]);
    if x != c {
        assert(doubled(seq![x], c) =~= seq![x]);
    }
    if b.len() == 0 {
        assert(a + b =~= a);
        assert(doubled(a, c) + doubled(b, c) =~= doubled(a, c));
    } else {
        law_quotes_are_doubled(a, b.drop_last(), c, x);
        assert((a + b).drop_last() =~= a + b.drop_last());
        assert((a + b).last() == b.last());
        assert(doubled(a + b, c) =~= doubled(a, c) + doubled(b, c));
    }
}

/// A quote can't end the text that it stands in: behind each one in a literal there is
/// another, but for the two at its ends.
pub proof fn law_literals_are_closed(value: Seq<char>)
    ensures
        literal(value).len() >= 2,
        literal(value)[0] == '\'',
        literal(value).last() == '\'',
        literal(value).subrange(1, literal(value).len() - 1) == doubled(value, '\''),
{
    reveal_strlit("'");
    assert(literal(value).subrange(1, literal(value).len() - 1) =~= doubled(value, '\''));
}

/// Texts are joined by the separator between any two, and by nothing at the ends.
pub proof fn law_joining(parts: Seq<Seq<char>>, last: Seq<char>, separator: Seq<char>)
    ensures
        joined(Seq::empty(), separator) == Seq::<char>::empty(),
        joined(seq![last], separator) == last,
        parts.len() > 0 ==> joined(parts.push(last), separator) == joined(parts, separator)
            + separator + last,
{
    assert(parts.push(last).drop_last() =~= parts);
}

/// A name is quoted part by part.
pub proof fn law_qualified_names(schema: Seq<char>, name: Seq<char>)
    ensures
        quoted(name).len() == name.len() + 2,
        quoted(name)[0] == '"',
        quoted(name).last() == '"',
        quoted(name).subrange(1, quoted(name).len() - 1) == name,
        qualified(schema, name).len() == schema.len() + name.len() + 5,
        qualified(schema, name).take(schema.len() as int + 2) == quoted(schema),
        qualified(schema, name)[schema.len() as int + 2] == '.',
        qualified(schema, name).skip(schema.len() as int + 3) == quoted(name),
{
    reveal_strlit("\"");
    reveal_strlit(".");
    assert(quoted(name).subrange(1, quoted(name).len() - 1) =~= name);
    assert(qualified(schema, name).take(schema.len() as int + 2) =~= quoted(schema));
    assert(qualified(schema, name).skip(schema.len() as int + 3) =~= quoted(name));
}

/// Numbers are written in tens, without zeroes in front, and behind a minus where they
/// are negative.
pub proof fn law_numbers_are_written(n: nat, d: nat)
    requires
        d < 10,
    ensures
        decimal(d) == seq![(('0' as nat) + d) as char],
        n > 0 ==> decimal(n * 10 + d) == decimal(n) + decimal(d),
        n > 0 ==> decimal(n)[0] != '0',
        signed_decimal(n as int) == decimal(n),
        n > 0 ==> signed_decimal(-n) == seq!['-'] + decimal(n),
    decreases n,
{
    reveal_strlit("-");
    assert("-"@ =~= seq!['-']);
    assert(-(-(n as int)) == n);
    if n > 0 {
        assert((n * 10 + d) / 10 == n);
        assert((n * 10 + d) % 10 == d);
        assert(n * 10 + d >= 10);
        assert(decimal(n * 10 + d) =~= decimal(n) + decimal(d));
        lemma_no_leading_zero(n);
    }
}

proof fn lemma_no_leading_zero(n: nat)
    requires
        n > 0,
    ensures
        decimal(n).len() > 0,
        decimal(n)[0] != '0',
    decreases n,
{
    if n >= 10 {
        lemma_no_leading_zero(n / 10);
        assert(decimal(n)[0] == decimal(n / 10)[0]);
    }
}

/// Letters are lowered one by one: the capital letters of ASCII, and no other.
pub proof fn law_letters_are_lowered(s: Seq<char>, i: int)
    requires
        0 <= i < s.len(),
    ensures
        lower(s).len() == s.len(),
        !('A' <= s[i] <= 'Z') ==> lower(s)[i] == s[i],
        'A' <= s[i] <= 'Z' ==> 'a' <= lower(s)[i] <= 'z' && lower(s)[i] as int - 'a' as int
            == s[i] as int - 'A' as int,
{
}

/// Texts are put in order by the first character that they differ in; a text comes
/// before what it is the start of.
pub proof fn law_texts_are_ordered(a: Seq<char>, b: Seq<char>, start: Seq<char>)
    ensures
        text_le(start, start + b),
        a.len() > 0 && b.len() > 0 && a[0] != b[0] ==> text_le(start + a, start + b) == ((
        a[0] as u32) < (b[0] as u32)),
        a.len() > 0 ==> !text_le(start + a, start),
    decreases start.len(),
{
    if start.len() == 0 {
        assert(start + a =~= a);
        assert(start + b =~= b);
    } else {
        let rest = start.drop_first();
        law_texts_are_ordered(a, b, rest);
        assert((start + a).drop_first() =~= rest + a);
        assert((start + b).drop_first() =~= rest + b);
    }
}

} // verus!
