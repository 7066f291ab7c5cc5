//! Tables sharded in the database.

use std::sync::Arc;
use vstd::prelude::*;

use crate::assoc::{AssocMap, KeyEq};
use crate::cluster::share;
use crate::config::DataType;
use crate::replication::table::{PublicationTableView, Table, TableView};
use crate::schema::ast::{opt_text, Column, ColumnView};
use crate::text::str_eq;

verus! {

/// How the result of a sharding key lookup is read.
#[derive(Debug, Clone, Copy, PartialEq, Eq, Structural)]
pub enum LookupResult {
    /// A value that is hashed in place of the key.
    Value,
    /// The number of the shard.
    Shard,
}

/// How the system catalogs are queried.
#[derive(Debug, Clone, Copy, PartialEq, Eq, Structural)]
pub enum SystemCatalogsBehavior {
    Omnisharded,
    OmnishardedSticky,
    Sharded,
}

impl Default for SystemCatalogsBehavior {
    fn default() -> (out: SystemCatalogsBehavior)
        ensures
            out == SystemCatalogsBehavior::OmnishardedSticky,
    {
        SystemCatalogsBehavior::OmnishardedSticky
    }
}

/// A value that is placed on a given shard.
#[derive(Debug, Clone)]
pub struct ListEntry {
    pub value: String,
    pub shard: usize,
}

/// A range of values that is placed on a given shard.
#[derive(Debug, Clone, Copy, PartialEq, Eq, Structural)]
pub struct RangeEntry {
    pub start: Option<i64>,
    pub end: Option<i64>,
    pub shard: usize,
}

/// An explicit placement of sharding keys.
#[derive(Debug, Clone)]
pub enum Mapping {
    List(Vec<ListEntry>),
    Range(Vec<RangeEntry>),
}

/// The contents of a [`Mapping`].
pub enum MappingView {
    List(Seq<(Seq<char>, usize)>),
    Range(Seq<RangeEntry>),
}

impl View for Mapping {
    type V = MappingView;

    open spec fn view(&self) -> MappingView {
        match self {
            Mapping::List(v) => MappingView::List(
                v@.map_values(|e: ListEntry| (e.value@, e.shard)),
            ),
            Mapping::Range(v) => MappingView::Range(v@),
        }
    }
}

impl Mapping {
    /// Whether two mappings are the same.
    pub fn same(&self, other: &Mapping) -> (same: bool)
        ensures
            same == (self@ == other@),
    {
        match (self, other) {
            (Mapping::List(a), Mapping::List(b)) => same_list(a, b),
            (Mapping::Range(a), Mapping::Range(b)) => same_range(a, b),
            _ => false,
        }
    }
}

fn same_list(a: &Vec<ListEntry>, b: &Vec<ListEntry>) -> (same: bool)
    ensures
        same == (a@.map_values(|e: ListEntry| (e.value@, e.shard)) == b@.map_values(
            |e: ListEntry| (e.value@, e.shard),
        )),
{
    let ghost x = a@.map_values(|e: ListEntry| (e.value@, e.shard));
    let ghost y = b@.map_values(|e: ListEntry| (e.value@, e.shard));
    if a.len() != b.len() {
        assert(x.len() != y.len());
        return false;
    }
    let mut i: usize = 0;
    while i < a.len()
        invariant
            i <= a.len(),
            a.len() == b.len(),
            x == a@.map_values(|e: ListEntry| (e.value@, e.shard)),
            y == b@.map_values(|e: ListEntry| (e.value@, e.shard)),
            forall|j: int| 0 <= j < i ==> x[j] == y[j],
        decreases a.len() - i,
    {
        if a[i].shard != b[i].shard || !str_eq(a[i].value.as_str(), b[i].value.as_str()) {
            assert(x[i as int] != y[i as int]);
            return false;
        }
        i += 1;
    }
    assert(x =~= y);
    true
}

fn same_range(a: &Vec<RangeEntry>, b: &Vec<RangeEntry>) -> (same: bool)
    ensures
        same == (a@ == b@),
{
    if a.len() != b.len() {
        return false;
    }
    let mut i: usize = 0;
    while i < a.len()
        invariant
            i <= a.len(),
            a.len() == b.len(),
            forall|j: int| 0 <= j < i ==> a@[j] == b@[j],
        decreases a.len() - i,
    {
        if a[i] != b[i] {
            return false;
        }
        i += 1;
    }
    assert(a@ =~= b@);
    true
}

/// A table, or every table, with a sharding column.
#[derive(Debug, Clone)]
pub struct ShardedTable {
    pub database: String,
    /// The table; any, where it is not given.
    pub name: Option<String>,
    /// The schema; any, where it is not given.
    pub schema: Option<String>,
    pub column: String,
    pub data_type: DataType,
    pub mapping: Option<Mapping>,
    pub lookup_query: Option<String>,
    pub lookup_result: LookupResult,
    /// Whether rows with a NULL key are on every shard.
    pub broadcast_null: bool,
    /// The number of centroids, for vectors.
    pub centroids: usize,
}

impl Default for ShardedTable {
    fn default() -> (out: ShardedTable)
        ensures
            out.database@ == Seq::<char>::empty(),
            out.name is None,
            out.schema is None,
            out.column@ == Seq::<char>::empty(),
            out.data_type == DataType::Bigint,
            out.mapping is None,
            out.lookup_query is None,
            out.lookup_result == LookupResult::Value,
            !out.broadcast_null,
            out.centroids == 0,
    {
        ShardedTable {
            database: String::new(),
            name: None,
            schema: None,
            column: String::new(),
            data_type: DataType::Bigint,
            mapping: None,
            lookup_query: None,
            lookup_result: LookupResult::Value,
            broadcast_null: false,
            centroids: 0,
        }
    }
}

/// A table that is on every shard.
#[derive(Debug, Clone)]
pub struct OmnishardedTable {
    pub name: String,
    pub sticky_routing: bool,
}

/// What a translation of a sharding key was looked up for.
#[derive(Debug, Clone)]
pub struct LookupTable {
    pub schema: Option<String>,
    pub name: Option<String>,
    pub column: String,
}

/// The contents of a [`LookupTable`].
pub struct LookupTableView {
    pub schema: Option<Seq<char>>,
    pub name: Option<Seq<char>>,
    pub column: Seq<char>,
}

impl View for LookupTable {
    type V = LookupTableView;

    open spec fn view(&self) -> LookupTableView {
        LookupTableView {
            schema: opt_text(self.schema),
            name: opt_text(self.name),
            column: self.column@,
        }
    }
}

fn copy_opt(s: &Option<String>) -> (out: Option<String>)
    ensures
        opt_text(out) == opt_text(*s),
        out == *s,
{
    match s {
        Some(s) => Some(s.clone()),
        None => None,
    }
}

fn opt_eq(a: &Option<String>, b: &Option<String>) -> (same: bool)
    ensures
        same == (opt_text(*a) == opt_text(*b)),
{
    match (a, b) {
        (Some(x), Some(y)) => str_eq(x.as_str(), y.as_str()),
        (None, None) => true,
        _ => false,
    }
}

impl LookupTable {
    /// A copy of the key.
    pub fn copy(&self) -> (out: LookupTable)
        ensures
            out@ == self@,
    {
        LookupTable {
            schema: copy_opt(&self.schema),
            name: copy_opt(&self.name),
            column: self.column.clone(),
        }
    }
}

impl ShardedTable {
    /// What the table's translations are cached under.
    pub open spec fn lookup_key(self) -> LookupTableView {
        LookupTableView {
            schema: opt_text(self.schema),
            name: opt_text(self.name),
            column: self.column@,
        }
    }

    /// What the table's translations are cached under.
    pub fn lookup_table(&self) -> (out: LookupTable)
        ensures
            out@ == self.lookup_key(),
    {
        LookupTable {
            schema: copy_opt(&self.schema),
            name: copy_opt(&self.name),
            column: self.column.clone(),
        }
    }

    /// Whether the table's rules cover a column: a column of a known table, with
    /// the same name, in a table and schema that are not told apart from these.
    pub open spec fn covers(self, column: ColumnView) -> bool {
        match column.table {
            None => false,
            Some(table) => {
                &&& self.name matches Some(name) ==> name@ == table
                &&& self.schema matches Some(schema) ==> (column.schema matches Some(s) ==> s
                    == schema@)
                &&& column.name == self.column@
            },
        }
    }

    fn matches_column(&self, column: &Column) -> (b: bool)
        ensures
            b == self.covers(column@),
    {
        match &column.table {
            None => false,
            Some(table) => {
                match &self.name {
                    Some(name) => {
                        if !str_eq(table.as_str(), name.as_str()) {
                            return false;
                        }
                    },
                    None => {},
                }
                match (&self.schema, &column.schema) {
                    (Some(schema), Some(s)) => {
                        if !str_eq(s.as_str(), schema.as_str()) {
                            return false;
                        }
                    },
                    _ => {},
                }
                str_eq(column.name.as_str(), self.column.as_str())
            },
        }
    }
}

/// A sharding key that was looked up, what for, and the number of the cache that
/// holds its translation.
#[derive(Debug, Clone)]
pub struct LookupKey {
    pub cache: usize,
    pub table: LookupTable,
    pub value: String,
}

/// The contents of a [`LookupKey`].
pub type LookupKeyView = (usize, LookupTableView, Seq<char>);

impl View for LookupKey {
    type V = LookupKeyView;

    open spec fn view(&self) -> LookupKeyView {
        (self.cache, self.table@, self.value@)
    }
}

impl KeyEq for LookupKey {
    fn key_eq(&self, other: &Self) -> (same: bool) {
        self.cache == other.cache && opt_eq(&self.table.schema, &other.table.schema) && opt_eq(
            &self.table.name,
            &other.table.name,
        ) && str_eq(self.table.column.as_str(), other.table.column.as_str()) && str_eq(
            self.value.as_str(),
            other.value.as_str(),
        )
    }
}

/// The translations of sharding keys in every cache.
#[derive(Debug)]
pub struct LookupStore {
    translations: AssocMap<LookupKey, String>,
    /// How many caches have been made.
    caches: usize,
}

/// The contents of a [`LookupStore`].
#[verifier::ext_equal]
pub struct LookupStoreView {
    pub translations: Map<LookupKeyView, String>,
    pub caches: usize,
}

impl View for LookupStore {
    type V = LookupStoreView;

    closed spec fn view(&self) -> LookupStoreView {
        LookupStoreView { translations: self.translations@, caches: self.caches }
    }
}

impl LookupStoreView {
    /// Whether every translation is in a cache that has been made.
    pub open spec fn wf(self) -> bool {
        forall|k: LookupKeyView| #[trigger] self.translations.contains_key(k) ==> k.0 < self.caches
    }

    /// The translations in a cache.
    pub open spec fn entries(self, cache: LookupCache) -> Map<
        (LookupTableView, Seq<char>),
        String,
    > {
        Map::new(
            |e: (LookupTableView, Seq<char>)|
                self.translations.contains_key((cache.number(), e.0, e.1)),
            |e: (LookupTableView, Seq<char>)| self.translations[(cache.number(), e.0, e.1)],
        )
    }

    /// Whether a cache is one of these.
    pub open spec fn holds(self, cache: LookupCache) -> bool {
        cache.number() < self.caches
    }
}

impl LookupStore {
    /// A store without a cache.
    pub fn new() -> (out: LookupStore)
        ensures
            out@.wf(),
            out@ == (LookupStoreView { translations: Map::empty(), caches: 0 }),
    {
        LookupStore { translations: AssocMap::new(), caches: 0 }
    }
}

/// Cached translations of sharding keys. Every copy of this stands for the same cache
/// of a [`LookupStore`].
#[derive(Debug, Clone, Copy, PartialEq, Eq, Structural)]
pub struct LookupCache {
    number: usize,
}

impl LookupCache {
    /// The number by which the store knows the cache.
    pub closed spec fn number(self) -> usize {
        self.number
    }

    /// A new cache, which is empty.
    pub fn new(store: &mut LookupStore) -> (out: LookupCache)
        requires
            old(store)@.wf(),
            old(store)@.caches < usize::MAX,
        ensures
            final(store)@.wf(),
            out.number() == old(store)@.caches,
            final(store)@ == (LookupStoreView {
                caches: (old(store)@.caches + 1) as usize,
                ..old(store)@
            }),
            final(store)@.entries(out) == Map::<(LookupTableView, Seq<char>), String>::empty(),
    {
        let number: usize = store.caches;
        store.caches = number + 1;
        let out: LookupCache = LookupCache { number };
        assert(store@.entries(out) =~= Map::<(LookupTableView, Seq<char>), String>::empty());
        out
    }

    /// The cached translation of a value.
    pub fn get<'a>(&self, store: &'a LookupStore, table: &LookupTable, value: &str) -> (out: Option<
        &'a String,
    >)
        ensures
            match out {
                Some(t) => store@.entries(*self).contains_key((table@, value@))
                    && store@.entries(*self)[(table@, value@)] == *t,
                None => !store@.entries(*self).contains_key((table@, value@)),
            },
    {
        let key: LookupKey = LookupKey {
            cache: self.number,
            table: table.copy(),
            value: value.to_owned(),
        };
        store.translations.get(&key)
    }

    /// The cached translation of a value of a table's sharding column.
    pub fn get_for_table<'a>(
        &self,
        store: &'a LookupStore,
        table: &ShardedTable,
        value: &str,
    ) -> (out: Option<&'a String>)
        ensures
            match out {
                Some(t) => store@.entries(*self).contains_key((table.lookup_key(), value@))
                    && store@.entries(*self)[(table.lookup_key(), value@)] == *t,
                None => !store@.entries(*self).contains_key((table.lookup_key(), value@)),
            },
    {
        self.get(store, &table.lookup_table(), value)
    }

    /// Caches a translation.
    pub fn insert(
        &self,
        store: &mut LookupStore,
        table: LookupTable,
        value: String,
        translation: String,
    )
        requires
            old(store)@.holds(*self),
        ensures
            old(store)@.wf() ==> final(store)@.wf(),
            final(store)@ == (LookupStoreView {
                translations: old(store)@.translations.insert(
                    (self.number(), table@, value@),
                    translation,
                ),
                ..old(store)@
            }),
    {
        let key: LookupKey = LookupKey { cache: self.number, table, value };
        store.translations.insert(key, translation);
    }

    /// Drops the translation of a value of a table's sharding column.
    pub fn invalidate_for_table(&self, store: &mut LookupStore, table: &ShardedTable, value: &str)
        ensures
            old(store)@.wf() ==> final(store)@.wf(),
            final(store)@ == (LookupStoreView {
                translations: old(store)@.translations.remove(
                    (self.number(), table.lookup_key(), value@),
                ),
                ..old(store)@
            }),
    {
        let key: LookupKey = LookupKey {
            cache: self.number,
            table: table.lookup_table(),
            value: value.to_owned(),
        };
        let ghost before = store@.translations;
        store.translations.remove(&key);
        assert forall|k: LookupKeyView| #[trigger]
            store@.translations.contains_key(k) implies before.contains_key(k) by {}
    }
}

/// What is put into one cache is in that cache, and in no other.
pub proof fn law_caches_are_apart(
    store: LookupStoreView,
    cache: LookupCache,
    other: LookupCache,
    table: LookupTableView,
    value: Seq<char>,
    translation: String,
)
    ensures
        ({
            let after = LookupStoreView {
                translations: store.translations.insert((cache.number(), table, value), translation),
                ..store
            };
            &&& after.entries(cache) == store.entries(cache).insert((table, value), translation)
            &&& cache.number() != other.number() ==> after.entries(other) == store.entries(other)
        }),
{
    let after = LookupStoreView {
        translations: store.translations.insert((cache.number(), table, value), translation),
        ..store
    };
    assert(after.entries(cache) =~= store.entries(cache).insert((table, value), translation));
    if cache.number() != other.number() {
        assert(after.entries(other) =~= store.entries(other));
    }
}

/// The sharding scheme that all tables share.
pub struct CommonMapping<'a> {
    pub data_type: DataType,
    /// The explicit placement; keys are hashed, where there is none.
    pub mapping: Option<&'a Mapping>,
    /// The lookup that every table shares, where there is one.
    pub lookup: Option<CommonLookup<'a>>,
}

/// The lookup that translates bare sharding keys.
pub struct CommonLookup<'a> {
    pub query: &'a String,
    pub table: LookupTable,
    pub result: LookupResult,
}

/// The contents of an optional mapping.
pub open spec fn mapping_view(m: Option<Mapping>) -> Option<MappingView> {
    match m {
        Some(m) => Some(m@),
        None => None,
    }
}

/// Whether two tables are sharded in the same way.
pub open spec fn same_scheme(a: ShardedTable, b: ShardedTable) -> bool {
    &&& a.data_type == b.data_type
    &&& mapping_view(a.mapping) == mapping_view(b.mapping)
    &&& opt_text(a.lookup_query) == opt_text(b.lookup_query)
    &&& a.lookup_result == b.lookup_result
}

fn has_same_scheme(a: &ShardedTable, b: &ShardedTable) -> (same: bool)
    ensures
        same == same_scheme(*a, *b),
{
    let mapping: bool = match (&a.mapping, &b.mapping) {
        (Some(x), Some(y)) => x.same(y),
        (None, None) => true,
        _ => false,
    };
    a.data_type == b.data_type && mapping && opt_eq(&a.lookup_query, &b.lookup_query)
        && a.lookup_result == b.lookup_result
}

/// Whether there are tables, and all are sharded in the same way.
pub open spec fn all_agree(tables: Seq<ShardedTable>) -> bool {
    tables.len() > 0 && forall|i: int|
        0 <= i < tables.len() ==> same_scheme(#[trigger] tables[i], tables[0])
}

#[derive(Debug)]
struct Inner {
    tables: Vec<ShardedTable>,
    /// By name, whether routing is sticky.
    omnisharded: AssocMap<String, bool>,
    omnisharded_sticky: bool,
    system_catalogs: SystemCatalogsBehavior,
    lookup_cache: LookupCache,
}

/// Sharded tables. Clones share everything, the cache of translations too.
#[derive(Debug)]
pub struct ShardedTables {
    inner: Arc<Inner>,
}

impl Clone for ShardedTables {
    fn clone(&self) -> (out: ShardedTables)
        ensures
            out == *self,
    {
        ShardedTables { inner: share(&self.inner) }
    }
}

/// Whether a new, empty cache was made, and nothing else changed.
pub open spec fn made_cache(
    before: LookupStoreView,
    after: LookupStoreView,
    cache: LookupCache,
) -> bool {
    &&& cache.number() == before.caches
    &&& after == LookupStoreView { caches: (before.caches + 1) as usize, ..before }
    &&& after.entries(cache) == Map::<(LookupTableView, Seq<char>), String>::empty()
}

/// Whether routing is sticky, by table name; the last entry for a name counts.
pub open spec fn sticky_map(tables: Seq<OmnishardedTable>) -> Map<Seq<char>, bool>
    decreases tables.len(),
{
    if tables.len() == 0 {
        Map::empty()
    } else {
        sticky_map(tables.drop_last()).insert(tables.last().name@, tables.last().sticky_routing)
    }
}

impl ShardedTables {
    /// The configured tables.
    pub closed spec fn rules(self) -> Seq<ShardedTable> {
        self.inner.tables@
    }

    /// The cache of translations.
    pub closed spec fn cache(self) -> LookupCache {
        self.inner.lookup_cache
    }

    /// The tables on every shard, and whether their routing is sticky.
    pub closed spec fn omni(self) -> Map<Seq<char>, bool> {
        self.inner.omnisharded@
    }

    /// Whether routing to tables on every shard is sticky by default.
    pub closed spec fn sticky_default(self) -> bool {
        self.inner.omnisharded_sticky
    }

    /// How the system catalogs are queried.
    pub closed spec fn catalogs(self) -> SystemCatalogsBehavior {
        self.inner.system_catalogs
    }

    /// No tables at all, with a cache of their own.
    pub fn default(store: &mut LookupStore) -> (out: Self)
        requires
            old(store)@.wf(),
            old(store)@.caches < usize::MAX,
        ensures
            final(store)@.wf(),
            made_cache(old(store)@, final(store)@, out.cache()),
            out.rules() == Seq::<ShardedTable>::empty(),
            out.omni() == Map::<Seq<char>, bool>::empty(),
            !out.sticky_default(),
            out.catalogs() == SystemCatalogsBehavior::OmnishardedSticky,
    {
        ShardedTables::from(Vec::new(), store)
    }

    /// Sharded tables alone, with a cache of their own.
    pub fn from(tables: Vec<ShardedTable>, store: &mut LookupStore) -> (out: Self)
        requires
            old(store)@.wf(),
            old(store)@.caches < usize::MAX,
        ensures
            final(store)@.wf(),
            made_cache(old(store)@, final(store)@, out.cache()),
            out.rules() == tables@,
            out.omni() == Map::<Seq<char>, bool>::empty(),
            !out.sticky_default(),
            out.catalogs() == SystemCatalogsBehavior::OmnishardedSticky,
    {
        ShardedTables::new(tables, Vec::new(), false, SystemCatalogsBehavior::default(), store)
    }

    /// Sharded tables with a cache of their own, which is empty.
    pub fn new(
        tables: Vec<ShardedTable>,
        omnisharded_tables: Vec<OmnishardedTable>,
        omnisharded_sticky: bool,
        system_catalogs: SystemCatalogsBehavior,
        store: &mut LookupStore,
    ) -> (out: Self)
        requires
            old(store)@.wf(),
            old(store)@.caches < usize::MAX,
        ensures
            final(store)@.wf(),
            made_cache(old(store)@, final(store)@, out.cache()),
            out.rules() == tables@,
            out.omni() == sticky_map(omnisharded_tables@),
            out.sticky_default() == omnisharded_sticky,
            out.catalogs() == system_catalogs,
    {
        let lookup_cache: LookupCache = LookupCache::new(store);
        ShardedTables::with_lookup_cache(
            tables,
            omnisharded_tables,
            omnisharded_sticky,
            system_catalogs,
            lookup_cache,
        )
    }

    /// Sharded tables with a given cache of translations.
    pub fn with_lookup_cache(
        tables: Vec<ShardedTable>,
        omnisharded_tables: Vec<OmnishardedTable>,
        omnisharded_sticky: bool,
        system_catalogs: SystemCatalogsBehavior,
        lookup_cache: LookupCache,
    ) -> (out: Self)
        ensures
            out.rules() == tables@,
            out.omni() == sticky_map(omnisharded_tables@),
            out.sticky_default() == omnisharded_sticky,
            out.catalogs() == system_catalogs,
            out.cache() == lookup_cache,
    {
        let mut omnisharded: AssocMap<String, bool> = AssocMap::new();
        let mut i: usize = 0;
        assert(omnisharded_tables@.take(0).len() == 0);
        while i < omnisharded_tables.len()
            invariant
                i <= omnisharded_tables.len(),
                omnisharded@ == sticky_map(omnisharded_tables@.take(i as int)),
            decreases omnisharded_tables.len() - i,
        {
            assert(omnisharded_tables@.take(i + 1).drop_last() =~= omnisharded_tables@.take(
                i as int,
            ));
            let table: &OmnishardedTable = &omnisharded_tables[i];
            omnisharded.insert(table.name.clone(), table.sticky_routing);
            i += 1;
        }
        assert(omnisharded_tables@.take(omnisharded_tables@.len() as int) =~= omnisharded_tables@);
        let inner: Inner = Inner {
            tables,
            omnisharded,
            omnisharded_sticky,
            system_catalogs,
            lookup_cache,
        };
        ShardedTables { inner: Arc::new(inner) }
    }

    /// The configured tables.
    pub fn tables(&self) -> (out: &Vec<ShardedTable>)
        ensures
            out@ == self.rules(),
    {
        &self.inner.tables
    }

    /// The cache of translations.
    pub fn lookup_cache(&self) -> (out: &LookupCache)
        ensures
            *out == self.cache(),
    {
        &self.inner.lookup_cache
    }

    /// Whether a translation is dropped along with some sharding keys: its table
    /// has a lookup, and its value is one of the keys.
    pub open spec fn dropped(
        tables: Seq<ShardedTable>,
        keys: Seq<String>,
        entry: (LookupTableView, Seq<char>),
    ) -> bool {
        exists|i: int, j: int|
            #![trigger tables[i], keys[j]]
            0 <= i < tables.len() && 0 <= j < keys.len() && tables[i].lookup_query is Some
                && entry == (tables[i].lookup_key(), keys[j]@)
    }

    /// Drops the cached translations of some sharding keys, for every clone. The next
    /// statement that uses one looks it up again.
    pub fn invalidate_lookup_keys(&self, store: &mut LookupStore, keys: &Vec<String>)
        ensures
            old(store)@.wf() ==> final(store)@.wf(),
            final(store)@.caches == old(store)@.caches,
            forall|k: LookupKeyView| #[trigger]
                final(store)@.translations.contains_key(k) <==> old(store)@.translations.contains_key(
                    k,
                ) && !(k.0 == self.cache().number() && Self::dropped(
                    self.rules(),
                    keys@,
                    (k.1, k.2),
                )),
            forall|k: LookupKeyView|
                final(store)@.translations.contains_key(k)
                    ==> #[trigger] final(store)@.translations[k] == old(store)@.translations[k],
    {
        let ghost before = store@.translations;
        let ghost rules = self.rules();
        let ghost number = self.cache().number();
        let tables: &Vec<ShardedTable> = &self.inner.tables;
        let mut i: usize = 0;
        while i < tables.len()
            invariant
                i <= tables.len(),
                tables@ == rules,
                number == self.inner.lookup_cache.number(),
                store@.caches == old(store)@.caches,
                before == old(store)@.translations,
                forall|k: LookupKeyView| #[trigger]
                    store@.translations.contains_key(k) <==> before.contains_key(k) && !(k.0
                        == number && Self::dropped(rules.take(i as int), keys@, (k.1, k.2))),
                forall|k: LookupKeyView|
                    store@.translations.contains_key(k) ==> #[trigger] store@.translations[k]
                        == before[k],
            decreases tables.len() - i,
        {
            let ghost held = store@.translations;
            let ghost lookup = rules[i as int].lookup_key();
            if tables[i].lookup_query.is_some() {
                let mut j: usize = 0;
                while j < keys.len()
                    invariant
                        j <= keys.len(),
                        i < tables.len(),
                        tables@ == rules,
                        number == self.inner.lookup_cache.number(),
                        lookup == rules[i as int].lookup_key(),
                        store@.caches == old(store)@.caches,
                        forall|k: LookupKeyView| #[trigger]
                            store@.translations.contains_key(k) <==> held.contains_key(k) && !(
                            exists|q: int|
                                0 <= q < j && k == (number, lookup, (#[trigger] keys@[q])@)),
                        forall|k: LookupKeyView|
                            store@.translations.contains_key(k)
                                ==> #[trigger] store@.translations[k] == held[k],
                    decreases keys.len() - j,
                {
                    let ghost prior = store@.translations;
                    self.inner.lookup_cache.invalidate_for_table(
                        store,
                        &tables[i],
                        keys[j].as_str(),
                    );
                    proof {
                        let gone = (number, lookup, keys@[j as int]@);
                        assert(store@.translations == prior.remove(gone));
                        assert forall|k: LookupKeyView| #[trigger]
                            store@.translations.contains_key(k) <==> held.contains_key(k) && !(
                            exists|q: int|
                                0 <= q < j + 1 && k == (number, lookup, (#[trigger] keys@[q])@)) by {
                            assert(prior.contains_key(k) <==> held.contains_key(k) && !(exists|
                                q: int,
                            |
                                0 <= q < j && k == (number, lookup, (#[trigger] keys@[q])@)));
                            if exists|q: int|
                                0 <= q < j + 1 && k == (number, lookup, (#[trigger] keys@[q])@) {
                                let q = choose|q: int|
                                    0 <= q < j + 1 && k == (number, lookup, (#[trigger] keys@[q])@);
                                if q < j {
                                    assert(k == (number, lookup, keys@[q]@));
                                }
                            }
                            if k == gone {
                                assert(k == (number, lookup, keys@[j as int]@));
                            }
                        }
                        assert forall|k: LookupKeyView|
                            store@.translations.contains_key(
                                k,
                            ) implies #[trigger] store@.translations[k] == held[k] by {
                            assert(prior.contains_key(k));
                            assert(prior[k] == held[k]);
                        }
                    }
                    j += 1;
                }
            }
            proof {
                let done = rules.take(i as int);
                let next = rules.take(i + 1);
                assert forall|k: LookupKeyView| #[trigger]
                    store@.translations.contains_key(k) <==> before.contains_key(k) && !(k.0
                        == number && Self::dropped(next, keys@, (k.1, k.2))) by {
                    let e = (k.1, k.2);
                    assert(held.contains_key(k) <==> before.contains_key(k) && !(k.0 == number
                        && Self::dropped(done, keys@, e)));
                    if Self::dropped(done, keys@, e) {
                        let (a, b) = choose|a: int, b: int|
                            #![trigger done[a], keys@[b]]
                            0 <= a < done.len() && 0 <= b < keys@.len() && done[a].lookup_query is Some
                                && e == (done[a].lookup_key(), keys@[b]@);
                        assert(next[a] == done[a]);
                        assert(keys@[b] == keys@[b]);
                        assert(Self::dropped(next, keys@, e));
                    }
                    if k.0 == number && Self::dropped(next, keys@, e) && !Self::dropped(
                        done,
                        keys@,
                        e,
                    ) {
                        let (a, b) = choose|a: int, b: int|
                            #![trigger next[a], keys@[b]]
                            0 <= a < next.len() && 0 <= b < keys@.len() && next[a].lookup_query is Some
                                && e == (next[a].lookup_key(), keys@[b]@);
                        if a < i {
                            assert(done[a] == next[a]);
                        }
                        assert(a == i);
                        assert(k == (number, lookup, keys@[b]@));
                    }
                    if rules[i as int].lookup_query is Some {
                        if exists|q: int|
                            0 <= q < keys@.len() && k == (number, lookup, (#[trigger] keys@[q])@) {
                            let q = choose|q: int|
                                0 <= q < keys@.len() && k == (
                                    number,
                                    lookup,
                                    (#[trigger] keys@[q])@,
                                );
                            assert(next[i as int] == rules[i as int]);
                            assert(Self::dropped(next, keys@, e));
                        }
                    }
                }
                assert forall|k: LookupKeyView|
                    store@.translations.contains_key(k) implies #[trigger] store@.translations[k]
                    == before[k] by {
                    assert(held.contains_key(k));
                    assert(held[k] == before[k]);
                }
            }
            i += 1;
        }
        assert(rules.take(rules.len() as int) =~= rules);
    }

    /// The tables on every shard, and whether their routing is sticky.
    pub fn omnishards(&self) -> (out: &AssocMap<String, bool>)
        ensures
            out@ == self.omni(),
    {
        &self.inner.omnisharded
    }

    /// Whether routing to a table on every shard is sticky.
    pub fn is_omnisharded_sticky(&self, name: &String) -> (out: Option<bool>)
        ensures
            out == if self.omni().contains_key(name@) {
                Some(self.omni()[name@])
            } else {
                None
            },
    {
        match self.inner.omnisharded.get(name) {
            Some(sticky) => Some(*sticky),
            None => None,
        }
    }

    /// Whether routing to tables on every shard is sticky by default.
    pub fn is_omnisharded_sticky_default(&self) -> (b: bool)
        ensures
            b == self.sticky_default(),
    {
        self.inner.omnisharded_sticky
    }

    /// Whether the system catalogs are joined across shards.
    pub fn is_system_catalog_sharded(&self) -> (b: bool)
        ensures
            b == (self.catalogs() == SystemCatalogsBehavior::Sharded),
    {
        self.inner.system_catalogs == SystemCatalogsBehavior::Sharded
    }

    /// The scheme that all tables share, where they agree on the data type, the
    /// mapping and the lookup. A bare sharding key, which names no table, can only
    /// be routed then.
    pub fn common_mapping(&self) -> (out: Option<CommonMapping<'_>>)
        ensures
            match out {
                None => !all_agree(self.rules()),
                Some(common) => {
                    let first = self.rules()[0];
                    &&& all_agree(self.rules())
                    &&& common.data_type == first.data_type
                    &&& match (common.mapping, first.mapping) {
                        (Some(a), Some(b)) => *a == b,
                        (None, None) => true,
                        _ => false,
                    }
                    &&& match (common.lookup, first.lookup_query) {
                        (Some(lookup), Some(query)) => *lookup.query == query && lookup.table@
                            == first.lookup_key() && lookup.result == first.lookup_result,
                        (None, None) => true,
                        _ => false,
                    }
                },
            },
    {
        if self.inner.tables.len() == 0 {
            return None;
        }
        let first: &ShardedTable = &self.inner.tables[0];
        let mut i: usize = 0;
        while i < self.inner.tables.len()
            invariant
                i <= self.inner.tables.len(),
                0 < self.inner.tables.len(),
                *first == self.inner.tables@[0],
                forall|j: int| 0 <= j < i ==> same_scheme(#[trigger] self.inner.tables@[j], *first),
            decreases self.inner.tables.len() - i,
        {
            if !has_same_scheme(&self.inner.tables[i], first) {
                assert(!same_scheme(self.rules()[i as int], self.rules()[0]));
                return None;
            }
            i += 1;
        }
        let mapping: Option<&Mapping> = match &first.mapping {
            Some(m) => Some(m),
            None => None,
        };
        let lookup: Option<CommonLookup<'_>> = match &first.lookup_query {
            Some(query) => Some(
                CommonLookup { query, table: first.lookup_table(), result: first.lookup_result },
            ),
            None => None,
        };
        Some(CommonMapping { data_type: first.data_type, mapping, lookup })
    }

    /// Whether a column is sharded.
    pub open spec fn shards_column(self, column: ColumnView) -> bool {
        exists|i: int| 0 <= i < self.rules().len() && (#[trigger] self.rules()[i]).covers(column)
    }

    /// The rules for a column: the first that cover it.
    pub fn get_table(&self, column: &Column) -> (out: Option<&ShardedTable>)
        ensures
            match out {
                None => !self.shards_column(column@),
                Some(table) => exists|i: int|
                    0 <= i < self.rules().len() && #[trigger] self.rules()[i] == *table
                        && table.covers(column@) && forall|j: int|
                        0 <= j < i ==> !(#[trigger] self.rules()[j]).covers(column@),
            },
    {
        let mut i: usize = 0;
        while i < self.inner.tables.len()
            invariant
                i <= self.inner.tables.len(),
                forall|j: int| 0 <= j < i ==> !(#[trigger] self.rules()[j]).covers(column@),
            decreases self.inner.tables.len() - i,
        {
            if self.inner.tables[i].matches_column(column) {
                assert(self.rules()[i as int] == self.inner.tables@[i as int]);
                return Some(&self.inner.tables[i]);
            }
            assert(!self.rules()[i as int].covers(column@));
            i += 1;
        }
        None
    }
}

/// Clones share their cache: what is put into it, or dropped from it, through one of
/// them is seen, or missed, by all; tables that were made apart see nothing of it.
pub proof fn law_clones_share_their_cache(
    first: ShardedTables,
    second: ShardedTables,
    clone: ShardedTables,
    store: LookupStoreView,
    table: LookupTableView,
    value: Seq<char>,
    translation: String,
)
    requires
        call_ensures(ShardedTables::clone, (&first,), clone),
        first.cache().number() != second.cache().number(),
    ensures
        ({
            let after = LookupStoreView {
                translations: store.translations.insert(
                    (first.cache().number(), table, value),
                    translation,
                ),
                ..store
            };
            &&& after.entries(clone.cache()) == store.entries(first.cache()).insert(
                (table, value),
                translation,
            )
            &&& after.entries(second.cache()) == store.entries(second.cache())
        }),
        store.entries(clone.cache()) == store.entries(first.cache()),
        clone.rules() == first.rules(),
{
    law_caches_are_apart(store, first.cache(), second.cache(), table, value, translation);
}

/// A column of a table, under the names that its rows go to.
pub open spec fn destination_column(table: PublicationTableView, name: Seq<char>) -> ColumnView {
    ColumnView {
        name,
        table: Some(table.destination_name()),
        schema: Some(table.destination_schema()),
    }
}

impl TableView {
    /// Whether one of the table's columns is a sharding key, by the names of the
    /// table that its rows go to.
    pub open spec fn sharded_by(self, tables: ShardedTables) -> bool {
        exists|i: int|
            0 <= i < self.columns.len() && tables.shards_column(
                destination_column(self.table, (#[trigger] self.columns[i]).name@),
            )
    }
}

impl Table {
    /// Whether one of the table's columns is a sharding key.
    pub fn is_sharded(&self, tables: &ShardedTables) -> (b: bool)
        ensures
            b == self@.sharded_by(*tables),
    {
        let mut i: usize = 0;
        while i < self.columns.len()
            invariant
                i <= self.columns.len(),
                forall|j: int|
                    0 <= j < i ==> !tables.shards_column(
                        destination_column(self.table@, (#[trigger] self.columns@[j]).name@),
                    ),
            decreases self.columns.len() - i,
        {
            let column: Column = Column {
                name: self.columns[i].name.clone(),
                table: Some(self.table.destination_name().to_owned()),
                schema: Some(self.table.destination_schema().to_owned()),
            };
            assert(column@ == destination_column(self.table@, self.columns@[i as int].name@));
            match tables.get_table(&column) {
                Some(_) => {
                    return true;
                },
                None => {},
            }
            i += 1;
        }
        false
    }
}

} // verus!
