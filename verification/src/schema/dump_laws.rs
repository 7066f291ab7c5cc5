//! What a dump is made with, and when the source is fit for one.

use vstd::prelude::*;

use super::dump::{
    build_pg_dump_command, differing, first_with_tables, table_views, CommandLine, PgDump,
};
use super::error::SchemaSyncError;
use crate::cluster::Address;
use crate::replication::table::PublicationTable;
use crate::text::texts;

verus! {

proof fn lemma_differing(loads: Seq<Vec<PublicationTable>>, first: int, n: int)
    requires
        0 <= first < n <= loads.len() <= usize::MAX,
    ensures
        forall|i: usize| #[trigger]
            differing(loads, first, n).contains(i) <==> first < i < n && table_views(
                loads[i as int]@,
            ) != table_views(loads[first]@),
    decreases n - first,
{
    if n > first + 1 {
        lemma_differing(loads, first, n - 1);
        let before = differing(loads, first, n - 1);
        assert(((n - 1) as usize) as int == n - 1);
        assert forall|i: usize| #[trigger]
            differing(loads, first, n).contains(i) <==> first < i < n && table_views(
                loads[i as int]@,
            ) != table_views(loads[first]@) by {
            assert(before.contains(i) <==> first < i < n - 1 && table_views(loads[i as int]@)
                != table_views(loads[first]@));
            if table_views(loads[n - 1]@) != table_views(loads[first]@) {
                vstd::seq_lib::lemma_seq_contains_after_push(before, (n - 1) as usize, i);
            }
        }
    }
}

/// A publication is fit for a dump where some shard has tables in it. The shards behind
/// the first such that have others are told, all of them. Without a publication there
/// is nothing to check.
pub proof fn law_publications_are_compared(
    dump: PgDump,
    loads: Vec<Vec<PublicationTable>>,
    out: Result<Vec<usize>, SchemaSyncError>,
    k: int,
    i: usize,
)
    requires
        call_ensures(PgDump::check_tables, (&dump, &loads), out),
        loads@.len() <= usize::MAX,
        0 <= k < loads@.len(),
        forall|j: int| 0 <= j < k ==> (#[trigger] loads@[j])@.len() == 0,
    ensures
        !dump.verifies() ==> out is Ok && out->Ok_0@.len() == 0,
        dump.verifies() && loads@[k]@.len() > 0 ==> out is Ok && (out->Ok_0@.contains(i) <==> k < i
            < loads@.len() && table_views(loads@[i as int]@) != table_views(loads@[k]@)),
        dump.verifies() && k == loads@.len() - 1 && loads@[k]@.len() == 0 ==> out is Err,
{
    let args = (&dump, &loads);
    assert(args.1@ == loads@);
    if dump.verifies() {
        if let Ok(differ) = out {
            let first = choose|first: int| #[trigger]
                first_with_tables(loads@, first) && differ@ == differing(
                    loads@,
                    first,
                    loads@.len() as int,
                );
            if loads@[k]@.len() > 0 {
                if first < k {
                    assert(loads@[first]@.len() == 0);
                }
                if k < first {
                    assert(loads@[k]@.len() == 0);
                }
                lemma_differing(loads@, first, loads@.len() as int);
            }
        }
    }
}

/// The schema is dumped from the first database of the first shard.
pub proof fn law_the_first_database_is_dumped(
    dump: PgDump,
    out: Result<&Address, SchemaSyncError>,
)
    requires
        call_ensures(PgDump::address, (&dump,), out),
    ensures
        ({
            let shards = dump.spec_source().shards@;
            let there = shards.len() > 0 && shards[0].pools@.len() > 0;
            &&& out is Ok <==> there
            &&& out matches Ok(addr) ==> *addr == shards[0].pools@[0].addr
        }),
{
}

/// A dump is of the schema alone, from the database given, with its secret; a server
/// that knows who connects by other means than a password is spoken to over TLS only.
pub proof fn law_dumps_are_of_the_schema(
    path: &'static str,
    addr: Address,
    secret: &'static str,
    out: CommandLine,
)
    requires
        call_ensures(build_pg_dump_command, (path, &addr, secret), out),
    ensures
        out.program@ == path@,
        texts(out.args@).contains("--schema-only"@),
        texts(out.args@).contains(addr.host@),
        texts(out.args@).contains(addr.user@),
        texts(out.args@).contains(addr.database_name@),
        out.envs@.len() >= 1,
        out.envs@[0].0@ == "PGPASSWORD"@,
        out.envs@[0].1@ == secret@,
        addr.server_auth == crate::cluster::ServerAuth::Password <==> out.envs@.len() == 1,
        addr.server_auth != crate::cluster::ServerAuth::Password ==> out.envs@.len() == 2
            && out.envs@[1].0@ == "PGSSLMODE"@ && out.envs@[1].1@ == "require"@,
{
    let args = texts(out.args@);
    assert(args == super::dump::dump_args(addr));
    assert(args[0] == "--schema-only"@);
    assert(args[2] == addr.host@);
    assert(args[6] == addr.user@);
    assert(args[8] == addr.database_name@);
    let envs = super::dump::env_views(out.envs@);
    assert(envs == super::dump::dump_envs(addr, secret@));
    assert(envs.len() == out.envs@.len());
    assert(envs[0] == (out.envs@[0].0@, out.envs@[0].1@));
    if envs.len() > 1 {
        assert(envs[1] == (out.envs@[1].0@, out.envs@[1].1@));
    }
}

} // verus!
