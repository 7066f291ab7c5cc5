//! In which phase each statement of a dump is run, as what, and that none is left out.

use vstd::prelude::*;
use vstd::utf8::{encode_utf8, is_char_boundary};

use super::ast::{
    AlterCmd, AlterSeqStmt, AlterTableCmd, AlterTableType, ConstrType, IndexStmt, Node, ObjectType,
    RawStmt,
};
use super::error::{SchemaSyncError, SchemaSyncErrorView};
use super::pg_dump::{
    cmd_statements, dump_statements, node_statements, setval, statement_views, stmt_text, text_view,
    PgDumpOutput, Rewrite, Statement, StatementView, SyncState,
};

verus! {

/// Whether a part of a list stands between two of the places given.
pub open spec fn is_part<A>(all: Seq<A>, parts: Seq<Seq<A>>, cuts: Seq<int>, i: int) -> bool {
    &&& 0 <= cuts[i] <= cuts[i + 1] <= all.len()
    &&& all.subrange(cuts[i], cuts[i + 1]) == parts[i]
}

/// Whether a list is made of parts, one behind the other and cut at the places given.
pub open spec fn is_made_of<A>(all: Seq<A>, parts: Seq<Seq<A>>, cuts: Seq<int>) -> bool {
    &&& cuts.len() == parts.len() + 1
    &&& cuts[0] == 0
    &&& cuts.last() == all.len()
    &&& forall|i: int| 0 <= i < parts.len() ==> #[trigger] is_part(all, parts, cuts, i)
}

proof fn lemma_one_more_part<A>(
    all: Seq<A>,
    parts: Seq<Seq<A>>,
    cuts: Seq<int>,
    part: Seq<A>,
)
    requires
        is_made_of(all, parts, cuts),
    ensures
        is_made_of(all + part, parts.push(part), cuts.push((all + part).len() as int)),
{
    let more = all + part;
    let list = parts.push(part);
    let places = cuts.push(more.len() as int);
    assert forall|i: int| 0 <= i < list.len() implies #[trigger] is_part(
        more,
        list,
        places,
        i,
    ) by {
        if i < parts.len() {
            assert(is_part(all, parts, cuts, i));
            assert(list[i] == parts[i]);
            assert(places[i] == cuts[i] && places[i + 1] == cuts[i + 1]);
            assert(more.subrange(cuts[i], cuts[i + 1]) =~= all.subrange(cuts[i], cuts[i + 1]));
        } else {
            assert(places[i] == cuts.last());
            assert(more.subrange(all.len() as int, more.len() as int) =~= part);
        }
    }
}

proof fn lemma_flat_map_parts<A, B>(s: Seq<A>, f: spec_fn(A) -> Seq<B>) -> (cuts: Seq<int>)
    ensures
        is_made_of(s.flat_map(f), s.map_values(f), cuts),
    decreases s.len(),
{
    if s.len() == 0 {
        assert(s.flat_map(f) =~= Seq::<B>::empty());
        seq![0int]
    } else {
        let before = s.drop_last();
        let cuts = lemma_flat_map_parts(before, f);
        before.lemma_flat_map_push(f, s.last());
        assert(s =~= before.push(s.last()));
        lemma_one_more_part(before.flat_map(f), before.map_values(f), cuts, f(s.last()));
        assert(s.map_values(f) =~= before.map_values(f).push(f(s.last())));
        cuts.push(s.flat_map(f).len() as int)
    }
}

/// A statement that is run as it is.
pub open spec fn strictly(sql: Seq<char>) -> StatementView {
    StatementView { sql, skip_if_exists: false }
}

/// A statement that may find what it makes there already.
pub open spec fn leniently(sql: Seq<char>) -> StatementView {
    StatementView { sql, skip_if_exists: true }
}

/// Whether a command is run in one phase, once, and in no other.
pub open spec fn runs_in(
    objtype: ObjectType,
    cmd: AlterTableCmd,
    sql: Seq<char>,
    phase: SyncState,
    statement: StatementView,
) -> bool {
    forall|state: SyncState| #[trigger]
        cmd_statements(objtype, AlterCmd::AlterTableCmd(cmd), sql, state) == if state == phase {
            seq![statement]
        } else {
            Seq::empty()
        }
}

/// Every constraint is added in exactly one phase: before the data where it is a
/// primary key, NOT NULL or NULL, and after the data otherwise. It may be there
/// already.
pub proof fn law_every_constraint_is_added(
    objtype: ObjectType,
    cmd: AlterTableCmd,
    sql: Seq<char>,
)
    requires
        cmd.subtype == AlterTableType::AddConstraint,
        cmd.def is Constraint,
    ensures
        ({
            let contype = cmd.def->Constraint_0.contype;
            let before = contype == ConstrType::Primary || contype == ConstrType::NotNull || contype
                == ConstrType::Null;
            &&& before ==> runs_in(objtype, cmd, sql, SyncState::PreData, leniently(sql))
            &&& !before ==> runs_in(objtype, cmd, sql, SyncState::PostData, leniently(sql))
        }),
{
}

/// A partition is attached to its table before the data, an index to its parent index
/// once it is there, which is after the data. Either may be attached already.
pub proof fn law_partitions_are_attached(objtype: ObjectType, cmd: AlterTableCmd, sql: Seq<char>)
    requires
        cmd.subtype == AlterTableType::AttachPartition,
    ensures
        objtype == ObjectType::Index ==> runs_in(
            objtype,
            cmd,
            sql,
            SyncState::PostData,
            leniently(sql),
        ),
        objtype != ObjectType::Index ==> runs_in(
            objtype,
            cmd,
            sql,
            SyncState::PreData,
            leniently(sql),
        ),
{
}

/// Any other command is run as it is: the replica identity after the data, since it
/// may name an index; an identity column not at all; the rest before the data.
pub proof fn law_other_commands(objtype: ObjectType, cmd: AlterTableCmd, sql: Seq<char>)
    requires
        cmd.subtype != AlterTableType::AddConstraint,
        cmd.subtype != AlterTableType::AttachPartition,
    ensures
        cmd.subtype == AlterTableType::ReplicaIdentity ==> runs_in(
            objtype,
            cmd,
            sql,
            SyncState::PostData,
            strictly(sql),
        ),
        cmd.subtype == AlterTableType::ColumnDefault || cmd.subtype == AlterTableType::Other
            ==> runs_in(objtype, cmd, sql, SyncState::PreData, strictly(sql)),
        cmd.subtype == AlterTableType::AddIdentity ==> forall|state: SyncState|
            (#[trigger] cmd_statements(
                objtype,
                AlterCmd::AlterTableCmd(cmd),
                sql,
                state,
            )).len() == 0,
{
}

/// An `ALTER TABLE` runs what its commands run, one behind the other.
pub proof fn law_commands_run_in_order(
    node: Node,
    sql: Seq<char>,
    state: SyncState,
    text: Result<Seq<char>, Seq<char>>,
) -> (cuts: Seq<int>)
    requires
        node is AlterTableStmt,
    ensures
        node_statements(node, sql, state, text) matches Ok(all) && is_made_of(
            all,
            node->AlterTableStmt_0.cmds@.map_values(
                |c: AlterCmd| cmd_statements(node->AlterTableStmt_0.objtype, c, sql, state),
            ),
            cuts,
        ),
{
    let alter = node->AlterTableStmt_0;
    let f = |c: AlterCmd| cmd_statements(alter.objtype, c, sql, state);
    let cuts = lemma_flat_map_parts(alter.cmds@, f);
    cuts
}

/// Whether a statement is run in one phase, once and as the words given, where it
/// could be worded.
pub open spec fn node_runs_in(
    node: Node,
    sql: Seq<char>,
    phase: SyncState,
    text: Result<Seq<char>, Seq<char>>,
    statements: Seq<StatementView>,
) -> bool {
    forall|state: SyncState| #[trigger]
        node_statements(node, sql, state, text) == Ok::<Seq<StatementView>, SchemaSyncErrorView>(
            if state == phase {
                statements
            } else {
                Seq::empty()
            },
        )
}

/// What is created under a name is created before the data, in the words of its
/// rewrite.
pub proof fn law_definitions_come_before_the_data(node: Node, sql: Seq<char>, text: Seq<char>)
    requires
        node is CreateStmt || node is CreateSeqStmt || node is CreateExtensionStmt
            || node is CreateSchemaStmt || node is CreateTrigStmt || node is ViewStmt
            || node is CreateTableAsStmt || node is CreateFunctionStmt,
    ensures
        node_runs_in(node, sql, SyncState::PreData, Ok(text), seq![strictly(text)]),
{
}

/// What could not be worded is a failure where it would have been run.
pub proof fn law_unworded_statements_are_failures(
    node: Node,
    sql: Seq<char>,
    state: SyncState,
    e: Seq<char>,
)
    requires
        node is CreateStmt || node is CreateSeqStmt || node is CreateExtensionStmt
            || node is CreateSchemaStmt || node is CreateTrigStmt || node is ViewStmt
            || node is CreateTableAsStmt || node is CreateFunctionStmt || node is IndexStmt,
    ensures
        node_statements(node, sql, state, Err(e)) == (if state == (if node is IndexStmt {
            SyncState::PostData
        } else {
            SyncState::PreData
        }) {
            Err(SchemaSyncErrorView::Parser(e))
        } else {
            Ok::<Seq<StatementView>, SchemaSyncErrorView>(Seq::empty())
        }),
{
}

/// A name that may be left out.
pub open spec fn name_or_nothing(name: Option<String>) -> Seq<char> {
    match name {
        Some(name) => name@,
        None => Seq::empty(),
    }
}

/// The schema of an index, which is that of its table.
pub open spec fn schema_of_index(index: IndexStmt) -> Seq<char> {
    match index.relation {
        Some(relation) => match relation.schemaname {
            Some(schema) => schema@,
            None => "public"@,
        },
        None => "public"@,
    }
}

/// Types, and changes of a publication, are run before the data as they are written,
/// and may be there already. A publication is dropped first.
pub proof fn law_types_and_publications(
    node: Node,
    sql: Seq<char>,
    text: Result<Seq<char>, Seq<char>>,
)
    ensures
        node is AlterPublicationStmt || node is CreateEnumStmt || node is CreateDomainStmt
            || node is CompositeTypeStmt ==> node_runs_in(
            node,
            sql,
            SyncState::PreData,
            text,
            seq![leniently(sql)],
        ),
        node matches Node::CreatePublicationStmt { pubname } ==> node_runs_in(
            node,
            sql,
            SyncState::PreData,
            text,
            seq![
                strictly(
                    "DROP PUBLICATION IF EXISTS \""@ + crate::text::doubled(
                        name_or_nothing(pubname),
                        '"',
                    ) + "\""@,
                ),
                leniently(sql),
            ],
        ),
{
}

/// Subscriptions, settings and queries of a dump are never run.
pub proof fn law_never_run(
    node: Node,
    sql: Seq<char>,
    state: SyncState,
    text: Result<Seq<char>, Seq<char>>,
)
    requires
        node is CreateSubscriptionStmt || node is AlterSubscriptionStmt || node is VariableSetStmt
            || node is SelectStmt,
    ensures
        node_statements(node, sql, state, text) == Ok::<Seq<StatementView>, SchemaSyncErrorView>(
            Seq::empty(),
        ),
{
}

/// An index is built after the data, in the words of its rewrite, in place of what an
/// earlier attempt may have left of it.
pub proof fn law_indexes_come_after_the_data(index: IndexStmt, sql: Seq<char>, text: Seq<char>)
    ensures
        node_runs_in(
            Node::IndexStmt(index),
            sql,
            SyncState::PostData,
            Ok(text),
            seq![
                strictly(
                    "DROP INDEX IF EXISTS \""@ + schema_of_index(index) + "\".\""@ + index.idxname@
                        + "\""@,
                ),
                strictly(text),
            ],
        ),
{
}

/// An owner is set before the data, but for that of a publication. What has no rule of
/// its own is run before the data as it is written.
pub proof fn law_the_rest_comes_before_the_data(
    node: Node,
    sql: Seq<char>,
    text: Result<Seq<char>, Seq<char>>,
)
    ensures
        node is Other ==> node_runs_in(node, sql, SyncState::PreData, text, seq![strictly(sql)]),
        node matches Node::AlterOwnerStmt { object_type } ==> node_runs_in(
            node,
            sql,
            SyncState::PreData,
            text,
            if object_type == ObjectType::Publication {
                Seq::empty()
            } else {
                seq![strictly(sql)]
            },
        ),
{
}

/// A sequence that a column owns is given to it before the data, and set to the
/// column's largest value when traffic moves over. One that no column owns is a
/// failure in both.
pub proof fn law_sequences_are_set_at_the_end(
    alter: AlterSeqStmt,
    sql: Seq<char>,
    text: Result<Seq<char>, Seq<char>>,
)
    ensures
        ({
            let node = Node::AlterSeqStmt(alter);
            let pre = node_statements(node, sql, SyncState::PreData, text);
            let post = node_statements(node, sql, SyncState::PostData, text);
            let cutover = node_statements(node, sql, SyncState::Cutover, text);
            let owned = alter.sequence is Some && alter.options@.len() > 0
                && alter.options@[0] is Column;
            &&& post == Ok::<Seq<StatementView>, SchemaSyncErrorView>(Seq::empty())
            &&& if owned {
                let column = alter.options@[0]->Column_0;
                &&& pre == Ok::<Seq<StatementView>, SchemaSyncErrorView>(seq![strictly(sql)])
                &&& match column@.table {
                    None => cutover == Err::<Seq<StatementView>, SchemaSyncErrorView>(
                        SchemaSyncErrorView::MissingEntity,
                    ),
                    Some(_) => cutover matches Ok(set) && {
                        &&& set.len() == 1
                        &&& !set[0].skip_if_exists
                        &&& Some(set[0].sql) == setval(
                            super::ast::table_name_of(alter.sequence->0),
                            column@,
                        )
                    },
                }
            } else {
                &&& pre == Err::<Seq<StatementView>, SchemaSyncErrorView>(
                    SchemaSyncErrorView::MissingEntity,
                )
                &&& cutover == pre
            }
        }),
{
}

proof fn lemma_dump_parts(
    original: Seq<char>,
    stmts: Seq<RawStmt>,
    state: SyncState,
    worded: Seq<Result<String, String>>,
) -> (cuts: Seq<int>)
    requires
        worded.len() >= stmts.len(),
        dump_statements(original, stmts, state, worded) is Ok,
    ensures
        dump_statements(original, stmts, state, worded) matches Ok(all) && is_made_of(
            all,
            dump_parts(original, stmts, state, worded),
            cuts,
        ),
        forall|i: int|
            0 <= i < stmts.len() ==> part_is_sound(
                original,
                #[trigger] stmts[i],
                state,
                text_view(worded[i]),
            ),
    decreases stmts.len(),
{
    if stmts.len() == 0 {
        seq![0int]
    } else {
        let before = stmts.drop_last();
        let last = stmts.len() - 1;
        let cuts = lemma_dump_parts(original, before, state, worded);
        let all = dump_statements(original, before, state, worded)->Ok_0;
        let parts = dump_parts(original, before, state, worded);
        let part = statement_part(original, stmts[last], state, text_view(worded[last]));
        lemma_one_more_part(all, parts, cuts, part);
        assert forall|i: int| 0 <= i < stmts.len() implies part_is_sound(
            original,
            #[trigger] stmts[i],
            state,
            text_view(worded[i]),
        ) by {
            if i < last {
                assert(before[i] == stmts[i]);
            }
        }
        assert(dump_parts(original, stmts, state, worded) =~= parts.push(part)) by {
            assert forall|i: int| 0 <= i < stmts.len() implies #[trigger] dump_parts(
                original,
                stmts,
                state,
                worded,
            )[i] == parts.push(part)[i] by {
                if i < last {
                    assert(before[i] == stmts[i]);
                }
            }
        }
        cuts.push((all + part).len() as int)
    }
}

/// What a statement of the dump gives.
pub open spec fn statement_part(
    original: Seq<char>,
    stmt: RawStmt,
    state: SyncState,
    text: Result<Seq<char>, Seq<char>>,
) -> Seq<StatementView> {
    node_statements(stmt.node, stmt_text(original, stmt)->Some_0, state, text)->Ok_0
}

/// What the statements of the dump give, each by itself.
pub open spec fn dump_parts(
    original: Seq<char>,
    stmts: Seq<RawStmt>,
    state: SyncState,
    worded: Seq<Result<String, String>>,
) -> Seq<Seq<StatementView>> {
    Seq::new(
        stmts.len(),
        |i: int| statement_part(original, stmts[i], state, text_view(worded[i])),
    )
}

/// Whether a statement is in the dump, and can be carried over.
pub open spec fn part_is_sound(
    original: Seq<char>,
    stmt: RawStmt,
    state: SyncState,
    text: Result<Seq<char>, Seq<char>>,
) -> bool {
    stmt_text(original, stmt) is Some && node_statements(
        stmt.node,
        stmt_text(original, stmt)->Some_0,
        state,
        text,
    ) is Ok
}

/// A phase runs what the statements of the dump give in it: all of them, one behind
/// the other, in the order of the dump.
pub proof fn law_the_dump_is_carried_over_in_order(
    dump: PgDumpOutput,
    state: SyncState,
    worded: Vec<Result<String, String>>,
    out: Result<Vec<Statement>, SchemaSyncError>,
) -> (cuts: Seq<int>)
    requires
        worded@.len() == dump.stmts@.len(),
        call_ensures(PgDumpOutput::statements, (&dump, state, &worded), out),
        out is Ok,
    ensures
        is_made_of(
            statement_views(out->Ok_0@),
            dump_parts(dump.original@, dump.stmts@, state, worded@),
            cuts,
        ),
        forall|i: int|
            0 <= i < dump.stmts@.len() ==> part_is_sound(
                dump.original@,
                #[trigger] dump.stmts@[i],
                state,
                text_view(worded@[i]),
            ),
{
    lemma_dump_parts(dump.original@, dump.stmts@, state, worded@)
}

/// No constraint of a dump is left out of all phases: each is among what is run before
/// the data where it is a primary key, NOT NULL or NULL, and among what is run after
/// the data otherwise.
pub proof fn law_no_constraint_is_left_out(
    dump: PgDumpOutput,
    state: SyncState,
    worded: Vec<Result<String, String>>,
    out: Result<Vec<Statement>, SchemaSyncError>,
    i: int,
    j: int,
)
    requires
        worded@.len() == dump.stmts@.len(),
        call_ensures(PgDumpOutput::statements, (&dump, state, &worded), out),
        out is Ok,
        0 <= i < dump.stmts@.len(),
        dump.stmts@[i].node is AlterTableStmt,
        0 <= j < dump.stmts@[i].node->AlterTableStmt_0.cmds@.len(),
        adds_constraint(dump.stmts@[i].node->AlterTableStmt_0.cmds@[j]),
        state == phase_of(dump.stmts@[i].node->AlterTableStmt_0.cmds@[j]),
    ensures
        stmt_text(dump.original@, dump.stmts@[i]) matches Some(sql) && statement_views(
            out->Ok_0@,
        ).contains(leniently(sql)),
{
    let cuts = law_the_dump_is_carried_over_in_order(dump, state, worded, out);
    let all = statement_views(out->Ok_0@);
    let parts = dump_parts(dump.original@, dump.stmts@, state, worded@);
    let stmt = dump.stmts@[i];
    assert(part_is_sound(dump.original@, stmt, state, text_view(worded@[i])));
    let sql = stmt_text(dump.original@, stmt)->Some_0;
    let alter = stmt.node->AlterTableStmt_0;
    let inner = law_commands_run_in_order(stmt.node, sql, state, text_view(worded@[i]));
    let f = |c: AlterCmd| cmd_statements(alter.objtype, c, sql, state);
    let mine = parts[i];
    assert(alter.cmds@.map_values(f)[j] == seq![leniently(sql)]);
    assert(is_part(mine, alter.cmds@.map_values(f), inner, j));
    assert(is_part(all, parts, cuts, i));
    assert(mine.subrange(inner[j], inner[j + 1]) == seq![leniently(sql)]);
    assert(mine.subrange(inner[j], inner[j + 1])[0] == leniently(sql));
    assert(mine[inner[j]] == leniently(sql));
    assert(all.subrange(cuts[i], cuts[i + 1]) == mine);
    assert(all[cuts[i] + inner[j]] == all.subrange(cuts[i], cuts[i + 1])[inner[j]]);
}

/// Whether a command adds a constraint.
pub open spec fn adds_constraint(cmd: AlterCmd) -> bool {
    cmd matches AlterCmd::AlterTableCmd(c) && c.subtype == AlterTableType::AddConstraint
        && c.def is Constraint
}

/// The phase that a constraint belongs to: keys and NULLs are there before the data,
/// so that it is found by them; what checks or points at data comes after it.
pub open spec fn phase_of(cmd: AlterCmd) -> SyncState {
    let contype = cmd->AlterTableCmd_0.def->Constraint_0.contype;
    if contype == ConstrType::Primary || contype == ConstrType::NotNull || contype
        == ConstrType::Null {
        SyncState::PreData
    } else {
        SyncState::PostData
    }
}

/// How statements are rewritten: what is created under a name may be there already,
/// triggers, views and functions are replaced, indexes are built without holding up
/// their table, unless that is a partitioned one given by ONLY.
pub proof fn law_rewrites(dump: PgDumpOutput, state: SyncState, out: Vec<Option<Rewrite>>, i: int)
    requires
        call_ensures(PgDumpOutput::rewrites, (&dump, state), out),
        0 <= i < dump.stmts@.len(),
    ensures
        out@.len() == dump.stmts@.len(),
        ({
            let node = dump.stmts@[i].node;
            let pre = state == SyncState::PreData;
            &&& (out@[i] is Some && out@[i]->0 is CreateTable) <==> pre && node is CreateStmt
            &&& (out@[i] is Some && out@[i]->0 is IfNotExists) <==> pre && (
            node is CreateSeqStmt || node is CreateExtensionStmt || node is CreateSchemaStmt
                || node is CreateTableAsStmt)
            &&& (out@[i] is Some && out@[i]->0 is Replace) <==> pre && (node is CreateTrigStmt
                || node is ViewStmt || node is CreateFunctionStmt)
            &&& (out@[i] is Some && out@[i]->0 is Index) <==> state == SyncState::PostData
                && node is IndexStmt
            &&& out@[i] is Some && out@[i]->0 is Index ==> out@[i]->0->concurrent == (
            node->IndexStmt_0.relation is Some && node->IndexStmt_0.relation->0.inh)
        }),
{
}

proof fn lemma_encoded_together(a: Seq<char>, b: Seq<char>)
    ensures
        encode_utf8(a + b) == encode_utf8(a) + encode_utf8(b),
    decreases a.len(),
{
    if a.len() == 0 {
        assert(a + b =~= b);
        assert(encode_utf8(a) + encode_utf8(b) =~= encode_utf8(b));
    } else {
        lemma_encoded_together(a.drop_first(), b);
        assert((a + b).drop_first() =~= a.drop_first() + b);
        assert((a + b)[0] == a[0]);
        assert(encode_utf8(a + b) =~= encode_utf8(a) + encode_utf8(b));
    }
}

proof fn lemma_boundary_between(a: Seq<char>, b: Seq<char>)
    ensures
        is_char_boundary(encode_utf8(a + b), encode_utf8(a).len() as int),
    decreases a.len(),
{
    let bytes = encode_utf8(a + b);
    vstd::utf8::encode_utf8_valid_utf8(a + b);
    lemma_encoded_together(a, b);
    if a.len() > 0 {
        let rest = a.drop_first();
        lemma_boundary_between(rest, b);
        vstd::utf8::encode_utf8_first_scalar(a + b);
        assert((a + b).drop_first() =~= rest + b);
        assert((a + b)[0] == a[0]);
        lemma_encoded_together(rest, b);
        assert(vstd::utf8::pop_first_scalar(bytes) =~= encode_utf8(rest + b));
        assert(encode_utf8(a).len() == vstd::utf8::length_of_first_scalar(bytes) + encode_utf8(
            rest,
        ).len());
    }
}

/// A statement's text is what stands in the dump where the statement does.
pub proof fn law_statements_are_cut_out(
    before: Seq<char>,
    sql: Seq<char>,
    after: Seq<char>,
    stmt: RawStmt,
)
    requires
        stmt.stmt_location == encode_utf8(before).len(),
        stmt.stmt_len == encode_utf8(sql).len(),
        stmt.stmt_location + stmt.stmt_len <= i32::MAX,
    ensures
        stmt_text(before + sql + after, stmt) == Some(sql),
{
    let all = before + sql + after;
    lemma_encoded_together(before, sql + after);
    lemma_encoded_together(sql, after);
    lemma_encoded_together(before, sql);
    assert(all =~= before + (sql + after));
    lemma_boundary_between(before, sql + after);
    lemma_boundary_between(before + sql, after);
    let bytes = encode_utf8(all);
    let start = stmt.stmt_location as int;
    let end = stmt.stmt_location + stmt.stmt_len;
    assert(bytes.subrange(start, end) =~= encode_utf8(sql));
    vstd::utf8::encode_utf8_decode_utf8(sql);
}

/// A statement that does not lie inside the dump is a failure.
pub proof fn law_statements_outside_the_dump_are_failures(original: Seq<char>, stmt: RawStmt)
    requires
        stmt.stmt_location < 0 || stmt.stmt_len < 0 || stmt.stmt_location + stmt.stmt_len
            > encode_utf8(original).len(),
    ensures
        stmt_text(original, stmt) is None,
{
}

} // verus!
