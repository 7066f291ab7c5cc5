//! What the statements that are sent say: which table they go to, which rows they find
//! and what they set.

use vstd::prelude::*;

use super::copy_statement::{is_null, CopyStatementView};
use super::move_keys::key_condition;
use super::parallel_sync::{leftover_text, probe_query};
use super::publication::{create_sql, drop_sql, row_filters_sql};
use super::table::{
    assigned_behind, compared, equation, identity_names, placeholder, placeholders, positioned,
    present_behind, present_equations, quoted_names, renumbered, sameness, PublicationTable,
    PublicationTableColumn, PublicationTableView, TableView,
};
use crate::text::{decimal, doubled, joined, literal, qualified, quoted, sorted_texts};

verus! {

/// The table that rows go to, as it is written: the parent's, part by part, where there
/// is one.
pub open spec fn written_destination(t: PublicationTableView) -> Seq<char> {
    qualified(
        if t.parent_schema.len() == 0 {
            t.schema
        } else {
            t.parent_schema
        },
        if t.parent_name.len() == 0 {
            t.name
        } else {
            t.parent_name
        },
    )
}

/// A row is inserted with all of its columns, each from the placeholder of its place.
pub proof fn law_inserts_name_every_column(t: TableView, i: int)
    requires
        0 <= i < t.columns.len(),
    ensures
        t.insert_sql() == "INSERT INTO "@ + written_destination(t.table) + " ("@ + joined(
            quoted_names(t.columns),
            ", "@,
        ) + ") VALUES ("@ + joined(placeholders(t.columns.len()), ", "@) + ")"@,
        quoted_names(t.columns).len() == t.columns.len(),
        quoted_names(t.columns)[i] == quoted(t.columns[i].name@),
        placeholders(t.columns.len()).len() == t.columns.len(),
        placeholders(t.columns.len())[i] == "$"@ + decimal((i + 1) as nat),
{
}

/// A row that is there is overwritten by its identity, but for a table without any
/// other column, where it is left. Under FULL nothing tells which row it is, and it is
/// left too.
pub proof fn law_upserts_overwrite(t: TableView)
    ensures
        t.insert_sql().is_prefix_of(t.upsert_sql()),
        (exists|i: int| 0 <= i < t.columns.len() && !(#[trigger] t.columns[i]).identity)
            ==> t.upsert_sql() == t.insert_sql() + " ON CONFLICT ("@ + joined(
            identity_names(t.columns),
            ", "@,
        ) + ")"@ + " DO UPDATE SET "@ + joined(positioned(t.columns, false), ", "@),
        (forall|i: int| 0 <= i < t.columns.len() ==> (#[trigger] t.columns[i]).identity)
            ==> t.upsert_sql() == t.insert_sql() + " ON CONFLICT ("@ + joined(
            identity_names(t.columns),
            ", "@,
        ) + ")"@ + " DO NOTHING"@,
        t.upsert_full_identity_sql() == t.insert_sql() + " ON CONFLICT DO NOTHING"@,
{
    let set = positioned(t.columns, false);
    if exists|i: int| 0 <= i < t.columns.len() && !(#[trigger] t.columns[i]).identity {
        let i = choose|i: int| 0 <= i < t.columns.len() && !(#[trigger] t.columns[i]).identity;
        super::parameter_laws::law_updates_read_their_columns(
            t.columns,
            false,
            equation(t.columns[i].name@, (i + 1) as nat),
        );
        assert(t.columns[i].identity == false);
        assert(set.contains(equation(t.columns[i].name@, (i + 1) as nat)));
        assert(set.len() > 0);
    }
    if forall|i: int| 0 <= i < t.columns.len() ==> (#[trigger] t.columns[i]).identity {
        if set.len() > 0 {
            super::parameter_laws::law_updates_read_their_columns(t.columns, false, set[0]);
            assert(set.contains(set[0]));
        }
    }
    let head = t.insert_sql();
    let sql = t.upsert_sql();
    assert(sql.take(head.len() as int) =~= head);
    assert forall|k: int| 0 <= k < head.len() implies sql[k] == head[k] by {}
}

proof fn lemma_identity_names(columns: Seq<PublicationTableColumn>, name: Seq<char>)
    ensures
        identity_names(columns).contains(name) <==> exists|i: int|
            0 <= i < columns.len() && (#[trigger] columns[i]).identity && name == quoted(
                columns[i].name@,
            ),
    decreases columns.len(),
{
    if columns.len() > 0 {
        let rest = columns.drop_last();
        let last = columns.len() - 1;
        lemma_identity_names(rest, name);
        assert(columns.last() == columns[last]);
        assert(forall|i: int| 0 <= i < last ==> #[trigger] rest[i] == columns[i]);
        if columns[last].identity {
            vstd::seq_lib::lemma_seq_contains_after_push(
                identity_names(rest),
                quoted(columns[last].name@),
                name,
            );
        }
        if identity_names(rest).contains(name) {
            let i = choose|i: int|
                0 <= i < rest.len() && (#[trigger] rest[i]).identity && name == quoted(
                    rest[i].name@,
                );
            assert(columns[i].identity);
        }
        if exists|i: int|
            0 <= i < columns.len() && (#[trigger] columns[i]).identity && name == quoted(
                columns[i].name@,
            ) {
            let i = choose|i: int|
                0 <= i < columns.len() && (#[trigger] columns[i]).identity && name == quoted(
                    columns[i].name@,
                );
            if i < last {
                assert(rest[i].identity);
            }
        }
    }
}

/// What tells whether a row is there are the columns of its identity.
pub proof fn law_conflicts_are_by_the_identity(
    columns: Seq<PublicationTableColumn>,
    name: Seq<char>,
)
    ensures
        identity_names(columns).contains(name) <==> exists|i: int|
            0 <= i < columns.len() && (#[trigger] columns[i]).identity && name == "\""@
                + columns[i].name@ + "\""@,
{
    lemma_identity_names(columns, name);
}

/// Updates and deletes go to the destination and find their row: by the columns of the
/// identity, or under FULL one row by all columns, equal or both NULL.
pub proof fn law_updates_and_deletes_find_their_row(t: TableView, mask: Seq<bool>)
    ensures
        ({
            let dest = written_destination(t.table);
            let one = " WHERE ctid = (SELECT ctid FROM "@ + dest + " WHERE "@ + joined(
                compared(t.columns),
                " AND "@,
            ) + " LIMIT 1)"@;
            &&& t.update_sql() == "UPDATE "@ + dest + " SET "@ + joined(
                positioned(t.columns, false),
                ", "@,
            ) + " WHERE "@ + joined(positioned(t.columns, true), " AND "@)
            &&& t.delete_sql() == "DELETE FROM "@ + dest + " WHERE "@ + joined(
                renumbered(t.columns),
                " AND "@,
            )
            &&& t.update_partial_sql(mask) == "UPDATE "@ + dest + " SET "@ + joined(
                present_equations(t.columns, mask, false),
                ", "@,
            ) + " WHERE "@ + joined(present_equations(t.columns, mask, true), " AND "@)
            &&& t.delete_full_identity_sql() == "DELETE FROM "@ + dest + one
            &&& t.update_full_identity_sql() == "UPDATE "@ + dest + " SET "@ + joined(
                assigned_behind(t.columns),
                ", "@,
            ) + one
            &&& t.update_full_identity_partial_set_sql(mask) == "UPDATE "@ + dest + " SET "@
                + joined(present_behind(t.columns, mask, t.columns.len()), ", "@) + one
        }),
{
}

/// A column is compared with, or set from, a placeholder by its number.
pub proof fn law_placeholders(name: Seq<char>, n: nat)
    ensures
        equation(name, n) == "\""@ + name + "\""@ + " = "@ + ("$"@ + decimal(n)),
        sameness(name, n) == "\""@ + name + "\""@ + " IS NOT DISTINCT FROM "@ + ("$"@ + decimal(n)),
{
}

/// A copy reads the source table, under its condition where it has one, and writes to
/// the destination, with the same columns in the same format.
pub proof fn law_copies_read_the_source_and_write_the_destination(s: CopyStatementView)
    ensures
        ({
            let columns = joined(s.columns.map_values(|c: Seq<char>| quoted(c)), ", "@);
            let source = qualified(s.table.schema, s.table.name);
            let format = " WITH (FORMAT "@ + s.copy_format.spec_name() + ")"@;
            &&& s.in_sql() == "COPY "@ + written_destination(s.table) + " ("@ + columns + ") "@
                + "FROM STDIN"@ + format
            &&& s.predicate is None ==> s.out_sql() == "COPY "@ + source + " ("@ + columns
                + ") "@ + "TO STDOUT"@ + format
            &&& s.predicate matches Some(condition) ==> s.out_sql() == "COPY (SELECT "@ + columns
                + " FROM "@ + source + " WHERE "@ + condition + ") TO STDOUT"@ + format
        }),
{
    let columns = joined(s.columns.map_values(|c: Seq<char>| quoted(c)), ", "@);
    let source = qualified(s.table.schema, s.table.name);
    let name = s.copy_format.spec_name();
    let format = " WITH (FORMAT "@ + name + ")"@;
    reveal_strlit(") TO STDOUT WITH (FORMAT ");
    reveal_strlit(") TO STDOUT");
    reveal_strlit(" WITH (FORMAT ");
    assert(s.in_sql() =~= "COPY "@ + written_destination(s.table) + " ("@ + columns + ") "@
        + "FROM STDIN"@ + format);
    if let Some(condition) = s.predicate {
        assert(") TO STDOUT WITH (FORMAT "@ =~= ") TO STDOUT"@ + " WITH (FORMAT "@);
        assert(s.out_sql() =~= "COPY (SELECT "@ + columns + " FROM "@ + source + " WHERE "@
            + condition + ") TO STDOUT"@ + format);
    } else {
        assert(s.out_sql() =~= "COPY "@ + source + " ("@ + columns + ") "@ + "TO STDOUT"@ + format);
    }
}

/// Rows are picked by a column that is NULL, or by one that is among keys; the keys are
/// written in order.
pub proof fn law_conditions(column: Seq<char>, keys: Seq<Seq<char>>)
    ensures
        is_null(column) == "\""@ + doubled(column, '"') + "\" IS NULL"@,
        key_condition(column, keys) == "\""@ + column + "\""@ + " = ANY(ARRAY["@ + joined(
            sorted_texts(keys).map_values(|k: Seq<char>| literal(k)),
            ", "@,
        ) + "])"@,
{
}

/// The name of a publication is escaped wherever it is written, and so are its tables.
pub proof fn law_publication_statements(name: Seq<char>, tables: Seq<Seq<char>>)
    ensures
        create_sql(name, tables) == "CREATE PUBLICATION "@ + ("\""@ + doubled(name, '"') + "\""@)
            + " FOR TABLE "@ + joined(
            tables.map_values(|t: Seq<char>| "\""@ + doubled(t, '"') + "\""@),
            ", "@,
        ),
        drop_sql(name) == "DROP PUBLICATION IF EXISTS "@ + ("\""@ + doubled(name, '"') + "\""@),
        row_filters_sql(name)
            == "SELECT COUNT(*)::bigint FROM pg_publication_tables WHERE pubname = "@ + ("'"@
            + doubled(name, '\'') + "'"@) + " AND rowfilter IS NOT NULL"@,
{
    let f = |t: Seq<char>| super::publication::identifier(t);
    let g = |t: Seq<char>| "\""@ + doubled(t, '"') + "\""@;
    assert(tables.map_values(f) =~= tables.map_values(g));
}

/// The operator is told which table holds rows, on which shards, and how to empty it.
pub proof fn law_leftovers_are_told(t: PublicationTableView, shards: Seq<usize>)
    ensures
        leftover_text(t, shards) == "destination "@ + written_destination(t)
            + " holds rows from a prior COPY attempt on shard(s) "@ + ("["@ + joined(
            shards.map_values(|n: usize| decimal(n as nat)),
            ", "@,
        ) + "]"@) + "; truncate before re-running the copy: TRUNCATE "@ + written_destination(t)
            + ";"@,
{
}

/// Rows are looked for at the destination, one of them.
pub proof fn law_probes_look_at_the_destination(t: PublicationTable, out: String)
    requires
        call_ensures(probe_query, (&t,), out),
        t@.parent_schema.len() == 0,
        t@.parent_name.len() == 0,
    ensures
        out@ == "SELECT 1 FROM "@ + ("\""@ + doubled(t@.schema, '"') + "\""@ + "."@ + ("\""@
            + doubled(t@.name, '"') + "\""@)) + " LIMIT 1"@,
{
}

} // verus!
