//! Scope of a move of single sharding keys: which keys move, from which shard to
//! which, and across which tables.
//!
//! Keys are held in their canonical text form (integers re-formatted, UUIDs
//! lowercased), so membership checks can't miss on formatting.

use vstd::prelude::*;

use super::error::Error;
use crate::cluster::Cluster;
use crate::config::DataType;
use crate::schema::ast::opt_text;
use crate::sharded_tables::{LookupResult, ShardedTable};
use crate::text::{
    decimal, digit, join, joined, lemma_sorted_texts_same, literal, lower, qualified, qualify,
    quote, quote_literal, quoted, signed_decimal, signed_decimal_string, sort_strings,
    sorted_texts, str_eq, texts, to_chars,
};

verus! {

/// One sharded table whose rows move.
#[derive(Debug, Clone)]
pub struct MoveTable {
    pub schema: String,
    pub name: String,
    pub sharding_column: String,
    pub data_type: DataType,
}

/// Whether a character is a decimal digit.
pub open spec fn is_digit(c: char) -> bool {
    '0' <= c <= '9'
}

/// Whether a text is a decimal number without a sign.
pub open spec fn all_digits(s: Seq<char>) -> bool {
    s.len() > 0 && forall|i: int| 0 <= i < s.len() ==> is_digit(#[trigger] s[i])
}

/// The number that some digits stand for.
pub open spec fn number(s: Seq<char>) -> nat
    decreases s.len(),
{
    if s.len() == 0 {
        0
    } else {
        number(s.drop_last()) * 10 + ((s.last() as nat) - ('0' as nat)) as nat
    }
}

/// The integer that a text stands for: digits behind an optional sign.
pub open spec fn integer(s: Seq<char>) -> Option<int> {
    if s.len() > 0 && s[0] == '-' {
        if all_digits(s.skip(1)) {
            Some(-(number(s.skip(1)) as int))
        } else {
            None
        }
    } else if s.len() > 0 && s[0] == '+' {
        if all_digits(s.skip(1)) {
            Some(number(s.skip(1)) as int)
        } else {
            None
        }
    } else if all_digits(s) {
        Some(number(s) as int)
    } else {
        None
    }
}

/// The 64-bit integer that a text stands for.
pub open spec fn bigint(s: Seq<char>) -> Option<int> {
    match integer(s) {
        Some(n) => if i64::MIN <= n <= i64::MAX {
            Some(n)
        } else {
            None
        },
        None => None,
    }
}

proof fn lemma_number_grows(s: Seq<char>, n: int)
    requires
        0 <= n <= s.len(),
    ensures
        number(s) >= number(s.take(n)),
    decreases s.len(),
{
    if n == s.len() {
        assert(s.take(n) =~= s);
    } else {
        lemma_number_grows(s.drop_last(), n);
        assert(s.drop_last().take(n) =~= s.take(n));
        assert(number(s) >= number(s.drop_last())) by (nonlinear_arith)
            requires
                number(s) == number(s.drop_last()) * 10 + ((s.last() as nat) - ('0' as nat)) as nat,
        ;
    }
}

/// The magnitude of some digits, where it is no larger than that of the least
/// 64-bit integer.
fn magnitude(chars: &Vec<char>, from: usize) -> (out: Option<u64>)
    requires
        from <= chars.len(),
    ensures
        match out {
            Some(n) => all_digits(chars@.skip(from as int)) && n == number(chars@.skip(from as int))
                && n <= 0x8000_0000_0000_0000,
            None => !all_digits(chars@.skip(from as int)) || number(chars@.skip(from as int))
                > 0x8000_0000_0000_0000,
        },
{
    let ghost s = chars@.skip(from as int);
    if from == chars.len() {
        return None;
    }
    let mut n: u64 = 0;
    let mut i: usize = from;
    assert(s.take(0).len() == 0);
    while i < chars.len()
        invariant
            from <= i <= chars.len(),
            s == chars@.skip(from as int),
            n == number(s.take(i - from)),
            n <= 0x8000_0000_0000_0000,
            forall|j: int| 0 <= j < i - from ==> is_digit(#[trigger] s[j]),
        decreases chars.len() - i,
    {
        let c: char = chars[i];
        assert(c == s[i - from]);
        if !('0' <= c && c <= '9') {
            return None;
        }
        let d: u64 = (c as u32 - '0' as u32) as u64;
        proof {
            assert(s.take(i - from + 1).drop_last() =~= s.take(i - from));
            assert(s.take(i - from + 1).last() == c);
            lemma_number_grows(s, i - from + 1);
        }
        if n > 0x0ccc_cccc_cccc_cccc {
            assert(number(s.take(i - from + 1)) == n * 10 + d);
            return None;
        }
        n = n * 10 + d;
        if n > 0x8000_0000_0000_0000 {
            return None;
        }
        i += 1;
    }
    assert(s.take(s.len() as int) =~= s);
    Some(n)
}

/// Reads a 64-bit integer: digits behind an optional sign.
pub fn parse_bigint(value: &str) -> (out: Option<i64>)
    ensures
        match out {
            Some(n) => bigint(value@) == Some(n as int),
            None => bigint(value@) is None,
        },
{
    let chars: Vec<char> = to_chars(value);
    if chars.len() == 0 {
        return None;
    }
    let negative: bool = chars[0] == '-';
    let from: usize = if negative || chars[0] == '+' {
        1
    } else {
        0
    };
    assert(chars@.skip(0) =~= chars@);
    match magnitude(&chars, from) {
        None => None,
        Some(n) => {
            if negative {
                if n == 0x8000_0000_0000_0000 {
                    Some(i64::MIN)
                } else {
                    Some(-(n as i64))
                }
            } else if n <= 0x7fff_ffff_ffff_ffff {
                Some(n as i64)
            } else {
                None
            }
        },
    }
}

/// Whether a character is a hexadecimal digit.
pub open spec fn is_hex(c: char) -> bool {
    is_digit(c) || 'a' <= c <= 'f' || 'A' <= c <= 'F'
}

/// Whether a text is a UUID in groups of 8, 4, 4, 4 and 12 hexadecimal digits.
pub open spec fn is_hyphenated(s: Seq<char>) -> bool {
    s.len() == 36 && forall|i: int|
        0 <= i < 36 ==> if i == 8 || i == 13 || i == 18 || i == 23 {
            #[trigger] s[i] == '-'
        } else {
            is_hex(s[i])
        }
}

/// Some hexadecimal digits in groups of 8, 4, 4, 4 and 12.
pub open spec fn grouped(s: Seq<char>) -> Seq<char> {
    s.subrange(0, 8) + seq!['-'] + s.subrange(8, 12) + seq!['-'] + s.subrange(12, 16) + seq!['-']
        + s.subrange(16, 20) + seq!['-'] + s.subrange(20, 32)
}

/// The UUID that a text holds, in groups: the digits alone, the groups, the groups
/// between braces, or the groups behind `urn:uuid:`, in whatever case.
pub open spec fn uuid_in(value: Seq<char>) -> Option<Seq<char>> {
    if value.len() == 32 && forall|i: int| 0 <= i < 32 ==> is_hex(#[trigger] value[i]) {
        Some(grouped(value))
    } else if is_hyphenated(value) {
        Some(value)
    } else if value.len() == 38 && value[0] == '{' && value[37] == '}' && is_hyphenated(
        value.subrange(1, 37),
    ) {
        Some(value.subrange(1, 37))
    } else if value.len() == 45 && lower(value.take(9)) == "urn:uuid:"@ && is_hyphenated(
        value.skip(9),
    ) {
        Some(value.skip(9))
    } else {
        None
    }
}

/// The text that a UUID is written back as, where a text can be read as one: its
/// groups in lower case.
pub open spec fn uuid_text(value: Seq<char>) -> Option<Seq<char>> {
    match uuid_in(value) {
        Some(groups) => Some(lower(groups)),
        None => None,
    }
}

/// `Uuid::parse_str` reads a UUID from 32 hexadecimal digits, from hyphenated groups
/// of them, from such groups between braces or behind `urn:uuid:`, and from nothing
/// else; the case does not matter. `Display` writes it in lower-case, hyphenated
/// groups.
#[verifier::external_body]
fn canonical_uuid(value: &str) -> (out: Option<String>)
    ensures
        opt_text(out) == uuid_text(value@),
{
    match uuid::Uuid::parse_str(value) {
        Ok(uuid) => Some(uuid.to_string()),
        Err(_) => None,
    }
}

proof fn lemma_grouped(s: Seq<char>)
    requires
        s.len() == 32,
        forall|i: int| 0 <= i < 32 ==> is_hex(#[trigger] s[i]),
    ensures
        is_hyphenated(grouped(s)),
{
    let g = grouped(s);
    assert(g.len() == 36);
    assert forall|i: int| 0 <= i < 36 implies if i == 8 || i == 13 || i == 18 || i == 23 {
        #[trigger] g[i] == '-'
    } else {
        is_hex(g[i])
    } by {
        if i < 8 {
            assert(g[i] == s[i]);
        } else if 8 < i < 13 {
            assert(g[i] == s[i - 1]);
        } else if 13 < i < 18 {
            assert(g[i] == s[i - 2]);
        } else if 18 < i < 23 {
            assert(g[i] == s[i - 3]);
        } else if 23 < i {
            assert(g[i] == s[i - 4]);
        }
    }
}

/// What a UUID is written back as is read and written back as it is.
proof fn lemma_uuid_text_is_canonical(value: Seq<char>)
    ensures
        uuid_text(value) matches Some(t) ==> uuid_text(t) == Some(t),
{
    if let Some(groups) = uuid_in(value) {
        if value.len() == 32 {
            lemma_grouped(value);
        }
        assert(is_hyphenated(groups));
        let t = lower(groups);
        assert(is_hyphenated(t)) by {
            assert forall|i: int| 0 <= i < 36 implies if i == 8 || i == 13 || i == 18 || i == 23 {
                #[trigger] t[i] == '-'
            } else {
                is_hex(t[i])
            } by {
                assert(groups[i] == groups[i]);
            }
        }
        assert(lower(t) =~= t);
    }
}

/// The canonical text form of a key: integers re-formatted, UUIDs in lower-case
/// groups, text as it is. A vector has none.
pub open spec fn canonical_text(value: Seq<char>, data_type: DataType) -> Option<Seq<char>> {
    match data_type {
        DataType::Bigint => match bigint(value) {
            Some(n) => Some(signed_decimal(n)),
            None => None,
        },
        DataType::Uuid => uuid_text(value),
        DataType::Varchar => Some(value),
        DataType::Vector => None,
    }
}

/// A number in decimal is made of digits and stands for itself.
pub proof fn lemma_decimal_digits(n: nat)
    ensures
        all_digits(decimal(n)),
        number(decimal(n)) == n,
    decreases n,
{
    if n >= 10 {
        lemma_decimal_digits(n / 10);
        assert(decimal(n).drop_last() =~= decimal(n / 10));
    } else {
        assert(decimal(n).drop_last() =~= Seq::<char>::empty());
        reveal_with_fuel(number, 2);
    }
}

/// An integer in decimal is read back as the same integer.
pub proof fn law_bigint_round_trip(n: int)
    requires
        i64::MIN <= n <= i64::MAX,
    ensures
        bigint(signed_decimal(n)) == Some(n),
{
    reveal_strlit("-");
    if n < 0 {
        lemma_decimal_digits((-n) as nat);
        let s = signed_decimal(n);
        assert(s[0] == '-');
        assert(s.skip(1) =~= decimal((-n) as nat));
    } else {
        lemma_decimal_digits(n as nat);
        let s = decimal(n as nat);
        assert(is_digit(s[0]));
    }
}

/// The canonical form of a key is its own canonical form.
pub proof fn law_canonical_is_canonical(value: Seq<char>, data_type: DataType)
    ensures
        canonical_text(value, data_type) matches Some(t) ==> canonical_text(t, data_type) == Some(
            t,
        ),
{
    if data_type == DataType::Bigint {
        if let Some(n) = bigint(value) {
            law_bigint_round_trip(n);
        }
    }
    if data_type == DataType::Uuid {
        lemma_uuid_text_is_canonical(value);
    }
}

/// Brings a key into its canonical text form.
fn canonical_key(value: &str, data_type: DataType) -> (out: Result<String, Error>)
    ensures
        match out {
            Ok(t) => canonical_text(value@, data_type) == Some(t@) && canonical_text(t@, data_type)
                == Some(t@),
            Err(Error::KeyMoveBadKey { data_type: d, value: v }) => canonical_text(
                value@,
                data_type,
            ) is None && d == data_type && v@ == value@,
            Err(_) => false,
        },
{
    let text: Option<String> = match data_type {
        DataType::Bigint => match parse_bigint(value) {
            Some(n) => Some(signed_decimal_string(n)),
            None => None,
        },
        DataType::Uuid => canonical_uuid(value),
        DataType::Varchar => Some(value.to_owned()),
        DataType::Vector => None,
    };
    proof {
        law_canonical_is_canonical(value@, data_type);
    }
    match text {
        Some(t) => Ok(t),
        None => Err(Error::KeyMoveBadKey { data_type, value: value.to_owned() }),
    }
}

/// Everything that one move of keys covers.
#[derive(Debug)]
pub struct KeyMoveScope {
    keys: Vec<String>,
    source: usize,
    target: usize,
    tables: Vec<MoveTable>,
    data_type: DataType,
}

/// Whether a text is the canonical form of one of some keys.
pub open spec fn canonical_of(keys: Seq<String>, data_type: DataType, text: Seq<char>) -> bool {
    exists|i: int|
        0 <= i < keys.len() && canonical_text((#[trigger] keys[i])@, data_type) == Some(text)
}

/// The condition that picks the rows with one of the keys.
pub open spec fn key_condition(column: Seq<char>, keys: Seq<Seq<char>>) -> Seq<char> {
    quoted(column) + " = ANY(ARRAY["@ + joined(
        sorted_texts(keys).map_values(|k: Seq<char>| literal(k)),
        ", "@,
    ) + "])"@
}

impl KeyMoveScope {
    /// The moving keys, in canonical form.
    pub closed spec fn moving(self) -> Seq<Seq<char>> {
        texts(self.keys@)
    }

    pub closed spec fn spec_source(self) -> usize {
        self.source
    }

    pub closed spec fn spec_target(self) -> usize {
        self.target
    }

    pub closed spec fn spec_tables(self) -> Seq<MoveTable> {
        self.tables@
    }

    pub closed spec fn key_type(self) -> DataType {
        self.data_type
    }

    /// Each key is in canonical form and there once.
    pub open spec fn wf(self) -> bool {
        &&& self.moving().no_duplicates()
        &&& forall|k: Seq<char>| #[trigger]
            self.moving().contains(k) ==> canonical_text(k, self.key_type()) == Some(k)
    }

    /// A scope for the given keys. They are brought into canonical form by the
    /// data type that the tables share. Fails where there are no tables, where a
    /// table has another data type than the first, and where a key does not read
    /// as that type; the first such table or key is named.
    pub fn new(keys: &Vec<String>, source: usize, target: usize, tables: Vec<MoveTable>) -> (out:
        Result<Self, Error>)
        ensures
            match out {
                Ok(scope) => {
                    &&& tables@.len() > 0
                    &&& forall|i: int|
                        0 <= i < tables@.len() ==> (#[trigger] tables@[i]).data_type
                            == tables@[0].data_type
                    &&& forall|i: int|
                        0 <= i < keys@.len() ==> canonical_text(
                            (#[trigger] keys@[i])@,
                            tables@[0].data_type,
                        ) is Some
                    &&& scope.wf()
                    &&& forall|k: Seq<char>|
                        scope.moving().contains(k) <==> canonical_of(
                            keys@,
                            tables@[0].data_type,
                            k,
                        )
                    &&& scope.spec_source() == source
                    &&& scope.spec_target() == target
                    &&& scope.spec_tables() == tables@
                    &&& scope.key_type() == tables@[0].data_type
                },
                Err(Error::KeyMoveNoTables) => tables@.len() == 0,
                Err(Error::KeyMoveDataTypeMismatch { table, expected, actual }) => {
                    &&& tables@.len() > 0
                    &&& expected == tables@[0].data_type
                    &&& exists|i: int|
                        0 <= i < tables@.len() && (#[trigger] tables@[i]).data_type != expected
                            && actual == tables@[i].data_type && table@ == qualified(
                            tables@[i].schema@,
                            tables@[i].name@,
                        ) && forall|j: int|
                            0 <= j < i ==> (#[trigger] tables@[j]).data_type == expected
                },
                Err(Error::KeyMoveBadKey { data_type, value }) => {
                    &&& tables@.len() > 0
                    &&& forall|i: int|
                        0 <= i < tables@.len() ==> (#[trigger] tables@[i]).data_type
                            == tables@[0].data_type
                    &&& data_type == tables@[0].data_type
                    &&& exists|i: int|
                        0 <= i < keys@.len() && canonical_text(
                            (#[trigger] keys@[i])@,
                            data_type,
                        ) is None && value@ == keys@[i]@ && forall|j: int|
                            0 <= j < i ==> canonical_text((#[trigger] keys@[j])@, data_type) is Some
                },
                Err(_) => false,
            },
    {
        if tables.len() == 0 {
            return Err(Error::KeyMoveNoTables);
        }
        let data_type: DataType = tables[0].data_type;
        let mut i: usize = 0;
        while i < tables.len()
            invariant
                i <= tables.len(),
                0 < tables.len(),
                data_type == tables@[0].data_type,
                forall|j: int| 0 <= j < i ==> (#[trigger] tables@[j]).data_type == data_type,
            decreases tables.len() - i,
        {
            if tables[i].data_type != data_type {
                return Err(
                    Error::KeyMoveDataTypeMismatch {
                        table: qualify(tables[i].schema.as_str(), tables[i].name.as_str()),
                        expected: data_type,
                        actual: tables[i].data_type,
                    },
                );
            }
            i += 1;
        }
        let mut canonical: Vec<String> = Vec::new();
        let mut k: usize = 0;
        while k < keys.len()
            invariant
                k <= keys.len(),
                0 < tables.len(),
                data_type == tables@[0].data_type,
                forall|j: int|
                    0 <= j < tables@.len() ==> (#[trigger] tables@[j]).data_type == data_type,
                forall|j: int|
                    0 <= j < k ==> canonical_text((#[trigger] keys@[j])@, data_type) is Some,
                texts(canonical@).no_duplicates(),
                forall|t: Seq<char>| #[trigger]
                    texts(canonical@).contains(t) ==> canonical_text(t, data_type) == Some(t),
                forall|t: Seq<char>| #[trigger]
                    texts(canonical@).contains(t) <==> canonical_of(
                        keys@.take(k as int),
                        data_type,
                        t,
                    ),
            decreases keys.len() - k,
        {
            let ghost held = texts(canonical@);
            let ghost before = keys@.take(k as int);
            let ghost after = keys@.take(k + 1);
            match canonical_key(keys[k].as_str(), data_type) {
                Ok(text) => {
                    let known: bool = contains_text(&canonical, text.as_str());
                    if !known {
                        canonical.push(text);
                        assert(texts(canonical@) =~= held.push(text@));
                    }
                    proof {
                        assert forall|t: Seq<char>| #[trigger]
                            texts(canonical@).contains(t) <==> held.contains(t) || t == text@ by {
                            vstd::seq_lib::lemma_seq_contains_after_push(held, text@, t);
                        }
                        assert forall|t: Seq<char>| #[trigger]
                            texts(canonical@).contains(t) <==> canonical_of(
                                after,
                                data_type,
                                t,
                            ) by {
                            assert(held.contains(t) <==> canonical_of(before, data_type, t));
                            if canonical_of(before, data_type, t) {
                                let j = choose|j: int|
                                    0 <= j < before.len() && canonical_text(
                                        (#[trigger] before[j])@,
                                        data_type,
                                    ) == Some(t);
                                assert(after[j] == before[j]);
                            }
                            if t == text@ {
                                assert(after[k as int] == keys@[k as int]);
                            }
                            if canonical_of(after, data_type, t) {
                                let j = choose|j: int|
                                    0 <= j < after.len() && canonical_text(
                                        (#[trigger] after[j])@,
                                        data_type,
                                    ) == Some(t);
                                if j < k {
                                    assert(before[j] == after[j]);
                                }
                            }
                        }
                        assert(texts(canonical@).no_duplicates()) by {
                            if !known {
                                assert forall|a: int, b: int|
                                    0 <= a < texts(canonical@).len() && 0 <= b < texts(
                                        canonical@,
                                    ).len() && a != b implies texts(canonical@)[a] != texts(
                                    canonical@,
                                )[b] by {
                                    if a == held.len() {
                                        assert(held.contains(held[b]));
                                    } else if b == held.len() {
                                        assert(held.contains(held[a]));
                                    }
                                }
                            }
                        }
                    }
                },
                Err(e) => {
                    return Err(e);
                },
            }
            k += 1;
        }
        assert(keys@.take(keys@.len() as int) =~= keys@);
        Ok(KeyMoveScope { keys: canonical, source, target, tables, data_type })
    }

    /// Whether a value is one of the moving keys. It must be in canonical form.
    pub fn contains(&self, canonical: &str) -> (b: bool)
        ensures
            b == self.moving().contains(canonical@),
    {
        contains_text(&self.keys, canonical)
    }

    /// Brings a key value into the same form as the scope's keys.
    pub fn canonical(&self, value: &str) -> (out: Result<String, Error>)
        ensures
            match out {
                Ok(t) => canonical_text(value@, self.key_type()) == Some(t@) && canonical_text(
                    t@,
                    self.key_type(),
                ) == Some(t@),
                Err(Error::KeyMoveBadKey { data_type, value: v }) => canonical_text(
                    value@,
                    self.key_type(),
                ) is None && data_type == self.key_type() && v@ == value@,
                Err(_) => false,
            },
    {
        canonical_key(value, self.data_type)
    }

    /// The shared data type of the sharding columns.
    pub fn data_type(&self) -> (out: DataType)
        ensures
            out == self.key_type(),
    {
        self.data_type
    }

    /// The shard that the keys are on.
    pub fn source(&self) -> (out: usize)
        ensures
            out == self.spec_source(),
    {
        self.source
    }

    /// The shard that the keys move to.
    pub fn target(&self) -> (out: usize)
        ensures
            out == self.spec_target(),
    {
        self.target
    }

    /// The tables whose rows move.
    pub fn tables(&self) -> (out: &Vec<MoveTable>)
        ensures
            out@ == self.spec_tables(),
    {
        &self.tables
    }

    /// The moving keys, in canonical form.
    pub fn keys(&self) -> (out: &Vec<String>)
        ensures
            texts(out@) == self.moving(),
    {
        &self.keys
    }

    /// A condition on a column that picks the rows of the moving keys, the values
    /// written out as literals in sorted order.
    pub fn predicate_sql(&self, column: &str) -> (out: String)
        ensures
            out@ == key_condition(column@, self.moving()),
    {
        let sorted: Vec<String> = sort_strings(&self.keys);
        let ghost all = texts(sorted@).map_values(|k: Seq<char>| literal(k));
        let mut literals: Vec<String> = Vec::new();
        let mut i: usize = 0;
        while i < sorted.len()
            invariant
                i <= sorted.len(),
                all == texts(sorted@).map_values(|k: Seq<char>| literal(k)),
                texts(literals@) == all.take(i as int),
            decreases sorted.len() - i,
        {
            let ghost before = texts(literals@);
            literals.push(quote_literal(sorted[i].as_str()));
            assert(texts(literals@) =~= before.push(all[i as int]));
            assert(all.take(i + 1) =~= all.take(i as int).push(all[i as int]));
            i += 1;
        }
        assert(all.take(all.len() as int) =~= all);
        let mut out: String = quote(column);
        out.append(" = ANY(ARRAY[");
        out.append(join(&literals, ", ").as_str());
        out.append("])");
        out
    }
}

fn contains_text(list: &Vec<String>, text: &str) -> (b: bool)
    ensures
        b == texts(list@).contains(text@),
{
    let mut i: usize = 0;
    while i < list.len()
        invariant
            i <= list.len(),
            forall|j: int| 0 <= j < i ==> (#[trigger] list@[j])@ != text@,
        decreases list.len() - i,
    {
        if str_eq(list[i].as_str(), text) {
            assert(texts(list@)[i as int] == text@);
            return true;
        }
        i += 1;
    }
    assert forall|j: int| 0 <= j < texts(list@).len() implies #[trigger] texts(list@)[j]
        != text@ by {
        assert(list@[j]@ != text@);
    }
    false
}

/// A value that stands for a key that was given is found among the moving keys,
/// however either of them was written.
pub proof fn law_membership_ignores_formatting(
    keys: Seq<String>,
    data_type: DataType,
    i: int,
    value: Seq<char>,
)
    requires
        0 <= i < keys.len(),
        canonical_text(value, data_type) is Some,
        canonical_text(value, data_type) == canonical_text(keys[i]@, data_type),
    ensures
        canonical_of(keys, data_type, canonical_text(value, data_type)->0),
{
}

/// The condition depends on which keys move, and not on the order in which they
/// were given.
pub proof fn law_condition_ignores_order(a: KeyMoveScope, b: KeyMoveScope, column: Seq<char>)
    requires
        a.wf(),
        b.wf(),
        forall|k: Seq<char>| a.moving().contains(k) <==> b.moving().contains(k),
    ensures
        key_condition(column, a.moving()) == key_condition(column, b.moving()),
{
    lemma_same_members(a.moving(), b.moving());
    lemma_sorted_texts_same(a.moving(), b.moving());
}

proof fn lemma_same_members(a: Seq<Seq<char>>, b: Seq<Seq<char>>)
    requires
        a.no_duplicates(),
        b.no_duplicates(),
        forall|k: Seq<char>| a.contains(k) <==> b.contains(k),
    ensures
        a.to_multiset() == b.to_multiset(),
{
    a.lemma_multiset_has_no_duplicates();
    b.lemma_multiset_has_no_duplicates();
    broadcast use vstd::seq_lib::to_multiset_contains;
    assert forall|k: Seq<char>| a.to_multiset().count(k) == b.to_multiset().count(k) by {
        assert(a.contains(k) <==> a.to_multiset().count(k) > 0);
        assert(b.contains(k) <==> b.to_multiset().count(k) > 0);
        if a.contains(k) {
            assert(a.to_multiset().contains(k));
            assert(b.to_multiset().contains(k));
        }
    }
    assert(a.to_multiset() =~= b.to_multiset());
}

/// Whether a table places rows by a lookup that gives the shard.
pub open spec fn by_lookup(table: ShardedTable) -> bool {
    table.lookup_result == LookupResult::Shard
}

/// How a table is named in a refusal.
pub open spec fn table_and_column(table: ShardedTable) -> Seq<char> {
    "table \""@ + (match table.name {
        Some(name) => name@,
        None => "*"@,
    }) + "\", column \""@ + table.column@ + "\""@
}

/// Checks that every sharded table places rows by a lookup that gives the shard:
/// the only placement that a single key can change. The first that does not is
/// refused.
pub fn placement_by_lookup(cluster: &Cluster) -> (out: Result<(), Error>)
    ensures
        ({
            let tables = cluster.sharded_tables.rules();
            match out {
                Ok(_) => forall|i: int| 0 <= i < tables.len() ==> by_lookup(#[trigger] tables[i]),
                Err(Error::PlacementNotByLookup(name)) => exists|i: int|
                    0 <= i < tables.len() && !by_lookup(#[trigger] tables[i]) && name@
                        == table_and_column(tables[i]) && forall|j: int|
                        0 <= j < i ==> by_lookup(#[trigger] tables[j]),
                Err(_) => false,
            }
        }),
{
    let tables: &Vec<ShardedTable> = cluster.sharded_tables.tables();
    let mut i: usize = 0;
    while i < tables.len()
        invariant
            i <= tables.len(),
            tables@ == cluster.sharded_tables.rules(),
            forall|j: int| 0 <= j < i ==> by_lookup(#[trigger] tables@[j]),
        decreases tables.len() - i,
    {
        let table: &ShardedTable = &tables[i];
        if table.lookup_result != LookupResult::Shard {
            let mut name: String = "table \"".to_owned();
            match &table.name {
                Some(s) => name.append(s.as_str()),
                None => name.append("*"),
            }
            name.append("\", column \"");
            name.append(table.column.as_str());
            name.append("\"");
            return Err(Error::PlacementNotByLookup(name));
        }
        i += 1;
    }
    Ok(())
}

} // verus!
