//! Prepared statements that apply the changes of a table.

use vstd::prelude::*;

use super::presence::NonIdentityColumnsPresence;
use crate::assoc::{AssocMap, CopyValue};
use crate::text::{decimal, decimal_string};

verus! {

/// A statement to prepare, under a name.
#[derive(Debug)]
pub struct Parse {
    pub name: String,
    pub query: String,
}

/// The contents of a [`Parse`].
pub struct ParseView {
    pub name: Seq<char>,
    pub query: Seq<char>,
}

impl View for Parse {
    type V = ParseView;

    open spec fn view(&self) -> ParseView {
        ParseView { name: self.name@, query: self.query@ }
    }
}

impl Parse {
    /// A statement under a name.
    pub fn named(name: String, query: String) -> (out: Parse)
        ensures
            out@ == (ParseView { name: name@, query: query@ }),
    {
        Parse { name, query }
    }

    /// A copy of the message.
    pub fn copy(&self) -> (out: Parse)
        ensures
            out == *self,
    {
        Parse { name: self.name.clone(), query: self.query.clone() }
    }
}

/// The name of the `n`-th prepared statement.
pub open spec fn nth_name(n: nat) -> Seq<char> {
    "__pgdog_repl_"@ + decimal(n)
}

/// Makes up a name for a prepared statement, and counts it.
pub fn statement_name(counter: &mut usize) -> (out: String)
    ensures
        out@ == nth_name(*old(counter) as nat),
        *final(counter) == (*old(counter)).wrapping_add(1),
{
    let mut out: String = "__pgdog_repl_".to_owned();
    out.append(decimal_string(*counter as u128).as_str());
    *counter = (*counter).wrapping_add(1);
    out
}

/// A prepared statement.
#[derive(Debug)]
pub struct Statement {
    parse: Parse,
}

impl View for Statement {
    type V = ParseView;

    closed spec fn view(&self) -> ParseView {
        self.parse@
    }
}

/// The statement that takes the next name.
pub open spec fn statement_of(query: Seq<char>, counter: usize) -> ParseView {
    ParseView { name: nth_name(counter as nat), query }
}

/// A statement that is never sent.
pub open spec fn no_statement() -> ParseView {
    ParseView { name: Seq::empty(), query: Seq::empty() }
}

impl Statement {
    /// The message that prepares the statement.
    pub fn parse(&self) -> (out: &Parse)
        ensures
            out@ == self@,
    {
        &self.parse
    }

    /// A statement under the next name.
    pub fn new(query: String, counter: &mut usize) -> (out: Statement)
        ensures
            out@ == statement_of(query@, *old(counter)),
            *final(counter) == (*old(counter)).wrapping_add(1),
    {
        let name: String = statement_name(counter);
        Statement { parse: Parse::named(name, query) }
    }

    /// A statement that is never sent.
    pub fn none() -> (out: Statement)
        ensures
            out@ == no_statement(),
    {
        let out: Statement = Statement {
            parse: Parse::named(String::new(), String::new()),
        };
        assert(out@.name =~= Seq::<char>::empty());
        assert(out@.query =~= Seq::<char>::empty());
        out
    }

    /// A copy of the statement.
    pub fn copy(&self) -> (out: Statement)
        ensures
            out == *self,
    {
        Statement { parse: self.parse.copy() }
    }
}

impl CopyValue for Statement {
    fn copy_value(&self) -> (out: Self) {
        self.copy()
    }
}

/// The statements of a table.
#[derive(Debug)]
pub struct Statements {
    pub insert: Statement,
    pub upsert: Statement,
    pub update: Statement,
    pub delete: Statement,
    /// Whether the table is on every shard.
    pub omni: bool,
    /// Whether the source table's replica identity is FULL.
    pub full_identity: bool,
    /// Updates of some columns only, by which columns have a value.
    pub update_shapes: AssocMap<NonIdentityColumnsPresence, Statement>,
    /// Position of the column that has to be NULL for a row to be applied.
    pub null_column_idx: Option<usize>,
}

/// The contents of [`Statements`].
#[verifier::ext_equal]
pub struct StatementsView {
    pub insert: ParseView,
    pub upsert: ParseView,
    pub update: ParseView,
    pub delete: ParseView,
    pub omni: bool,
    pub full_identity: bool,
    pub update_shapes: Map<Seq<bool>, ParseView>,
    pub null_column_idx: Option<usize>,
}

impl View for Statements {
    type V = StatementsView;

    open spec fn view(&self) -> StatementsView {
        StatementsView {
            insert: self.insert@,
            upsert: self.upsert@,
            update: self.update@,
            delete: self.delete@,
            omni: self.omni,
            full_identity: self.full_identity,
            update_shapes: self.update_shapes@.map_values(|s: Statement| s@),
            null_column_idx: self.null_column_idx,
        }
    }
}

impl Statements {
    /// A copy of the statements.
    pub fn copy(&self) -> (out: Statements)
        ensures
            out@ == self@,
    {
        Statements {
            insert: self.insert.copy(),
            upsert: self.upsert.copy(),
            update: self.update.copy(),
            delete: self.delete.copy(),
            omni: self.omni,
            full_identity: self.full_identity,
            update_shapes: self.update_shapes.copy(),
            null_column_idx: self.null_column_idx,
        }
    }

    /// The update for the columns that have a value, where it is prepared.
    pub fn shape(&self, present: &NonIdentityColumnsPresence) -> (out: Option<&Statement>)
        ensures
            match out {
                Some(s) => self@.update_shapes.contains_key(present@)
                    && self@.update_shapes[present@] == s@,
                None => !self@.update_shapes.contains_key(present@),
            },
    {
        self.update_shapes.get(present)
    }

    /// Keeps the update for the columns that have a value.
    pub fn add_shape(&mut self, present: NonIdentityColumnsPresence, statement: Statement)
        ensures
            final(self)@ == (StatementsView {
                update_shapes: old(self)@.update_shapes.insert(present@, statement@),
                ..old(self)@
            }),
    {
        self.update_shapes.insert(present, statement);
        assert(self@.update_shapes =~= old(self)@.update_shapes.insert(present@, statement@));
    }
}

/// No two statements have the same name, as long as their numbers differ.
pub proof fn law_names_differ(a: nat, b: nat)
    requires
        a != b,
    ensures
        nth_name(a) != nth_name(b),
{
    super::move_keys::lemma_decimal_digits(a);
    super::move_keys::lemma_decimal_digits(b);
    let prefix = "__pgdog_repl_"@;
    if nth_name(a) == nth_name(b) {
        assert(nth_name(a).skip(prefix.len() as int) =~= decimal(a));
        assert(nth_name(b).skip(prefix.len() as int) =~= decimal(b));
    }
}

} // verus!
