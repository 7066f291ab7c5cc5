//! Creates and drops publications for ADD SHARD.
//!
//! Unlike resharding, which takes a publication that an operator made, ADD SHARD
//! makes its own: it only needs the tables on every shard.

use vstd::prelude::*;

use super::error::{BackendError, Error, PoolError};
use crate::cluster::{Cluster, Shard};
use crate::text::{
    around, doubled, escape_identifier, join, joined, lemma_sorted_texts_same, literal,
    quote_literal, sort_strings, str_eq, texts,
};

verus! {

/// An identifier between double quotes, escaped.
pub open spec fn identifier(name: Seq<char>) -> Seq<char> {
    "\""@ + doubled(name, '"') + "\""@
}

fn quote_identifier(name: &str) -> (out: String)
    ensures
        out@ == identifier(name@),
{
    around("\"", escape_identifier(name).as_str(), "\"")
}

/// The statement that makes a publication.
pub open spec fn create_sql(name: Seq<char>, tables: Seq<Seq<char>>) -> Seq<char> {
    "CREATE PUBLICATION "@ + identifier(name) + " FOR TABLE "@ + joined(
        tables.map_values(|t: Seq<char>| identifier(t)),
        ", "@,
    )
}

/// What came of making a publication.
#[derive(Debug, Clone, Copy, PartialEq, Eq, Structural)]
pub enum Created {
    /// It was made.
    New,
    /// There is one of that name, which has to be checked.
    Exists,
}

/// The shard of a cluster.
pub fn shard_of(cluster: &Cluster, shard: usize) -> (out: Result<&Shard, Error>)
    ensures
        match out {
            Ok(s) => shard < cluster.shards@.len() && *s == *cluster.shards@[shard as int],
            Err(Error::Pool(PoolError::NoShard(n))) => shard >= cluster.shards@.len() && n == shard,
            Err(_) => false,
        },
{
    if shard < cluster.shards.len() {
        Ok(&cluster.shards[shard])
    } else {
        Err(Error::Pool(PoolError::NoShard(shard)))
    }
}

/// The statement that makes a publication for some tables. There must be some.
pub fn create_publication(name: &str, tables: &Vec<String>) -> (out: Result<String, Error>)
    ensures
        match out {
            Ok(sql) => tables@.len() > 0 && sql@ == create_sql(name@, texts(tables@)),
            Err(e) => tables@.len() == 0 && e is NoTables,
        },
{
    if tables.len() == 0 {
        return Err(Error::NoTables);
    }
    let ghost all = texts(tables@).map_values(|t: Seq<char>| identifier(t));
    let mut list: Vec<String> = Vec::new();
    let mut i: usize = 0;
    while i < tables.len()
        invariant
            i <= tables.len(),
            all == texts(tables@).map_values(|t: Seq<char>| identifier(t)),
            texts(list@) == all.take(i as int),
        decreases tables.len() - i,
    {
        let ghost before = texts(list@);
        list.push(quote_identifier(tables[i].as_str()));
        assert(texts(list@) =~= before.push(all[i as int]));
        assert(all.take(i + 1) =~= all.take(i as int).push(all[i as int]));
        i += 1;
    }
    assert(all.take(all.len() as int) =~= all);
    let mut sql: String = "CREATE PUBLICATION ".to_owned();
    sql.append(quote_identifier(name).as_str());
    sql.append(" FOR TABLE ");
    sql.append(join(&list, ", ").as_str());
    Ok(sql)
}

/// Whether an error says that there is one already.
pub open spec fn already_exists(e: BackendError) -> bool {
    e matches BackendError::ExecutionError(response) && response.code@ == "42710"@
}

/// What came of the statement that makes a publication. One that is there already
/// can be used if it is the same; any other failure stands.
pub fn publication_created(result: Result<(), BackendError>) -> (out: Result<Created, Error>)
    ensures
        match (result, out) {
            (Ok(_), Ok(created)) => created == Created::New,
            (Err(e), Ok(created)) => already_exists(e) && created == Created::Exists,
            (Err(e), Err(Error::Backend(f))) => !already_exists(e) && e == f,
            _ => false,
        },
{
    match result {
        Ok(_) => Ok(Created::New),
        Err(e) => {
            match &e {
                BackendError::ExecutionError(response) => {
                    if str_eq(response.code.as_str(), "42710") {
                        return Ok(Created::Exists);
                    }
                },
                _ => {},
            }
            Err(Error::Backend(e))
        },
    }
}

fn same_texts(a: &Vec<String>, b: &Vec<String>) -> (same: bool)
    ensures
        same == (texts(a@) == texts(b@)),
{
    let ghost x = texts(a@);
    let ghost y = texts(b@);
    if a.len() != b.len() {
        assert(x.len() != y.len());
        return false;
    }
    let mut i: usize = 0;
    while i < a.len()
        invariant
            i <= a.len(),
            a.len() == b.len(),
            x == texts(a@),
            y == texts(b@),
            forall|j: int| 0 <= j < i ==> x[j] == y[j],
        decreases a.len() - i,
    {
        if !str_eq(a[i].as_str(), b[i].as_str()) {
            assert(x[i as int] != y[i as int]);
            return false;
        }
        i += 1;
    }
    assert(x =~= y);
    true
}

/// Checks that a publication covers exactly the given tables, in any order:
/// copying and streaming trust its list.
pub fn validate_tables(name: &str, existing: &Vec<String>, requested: &Vec<String>) -> (out: Result<
    (),
    Error,
>)
    ensures
        match out {
            Ok(_) => texts(existing@).to_multiset() == texts(requested@).to_multiset(),
            Err(Error::PublicationMismatch(n)) => n@ == name@ && texts(existing@).to_multiset()
                != texts(requested@).to_multiset(),
            Err(_) => false,
        },
{
    let a: Vec<String> = sort_strings(existing);
    let b: Vec<String> = sort_strings(requested);
    proof {
        lemma_sorted_texts_same(texts(existing@), texts(requested@));
    }
    if same_texts(&a, &b) {
        Ok(())
    } else {
        Err(Error::PublicationMismatch(name.to_owned()))
    }
}

/// The query that counts the tables of a publication with a row filter.
pub open spec fn row_filters_sql(name: Seq<char>) -> Seq<char> {
    "SELECT COUNT(*)::bigint FROM pg_publication_tables WHERE pubname = "@ + literal(name)
        + " AND rowfilter IS NOT NULL"@
}

/// The query that counts the tables of a publication with a row filter.
pub fn row_filters_query(name: &str) -> (out: String)
    ensures
        out@ == row_filters_sql(name@),
{
    around(
        "SELECT COUNT(*)::bigint FROM pg_publication_tables WHERE pubname = ",
        quote_literal(name).as_str(),
        " AND rowfilter IS NOT NULL",
    )
}

/// Checks that a publication has no row filters, which would silently drop rows
/// that copying and streaming expect.
pub fn validate_row_filters(name: &str, filtered: &Vec<i64>) -> (out: Result<(), Error>)
    ensures
        match out {
            Ok(_) => !(filtered@.len() > 0 && filtered@[0] > 0),
            Err(Error::PublicationHasRowFilter(n)) => n@ == name@ && filtered@.len() > 0
                && filtered@[0] > 0,
            Err(_) => false,
        },
{
    if filtered.len() > 0 && filtered[0] > 0 {
        Err(Error::PublicationHasRowFilter(name.to_owned()))
    } else {
        Ok(())
    }
}

/// The statement that drops a publication.
pub open spec fn drop_sql(name: Seq<char>) -> Seq<char> {
    "DROP PUBLICATION IF EXISTS "@ + identifier(name)
}

/// The statement that drops a publication.
pub fn drop_publication(name: &str) -> (out: String)
    ensures
        out@ == drop_sql(name@),
{
    let mut out: String = "DROP PUBLICATION IF EXISTS ".to_owned();
    out.append(quote_identifier(name).as_str());
    out
}

} // verus!
