//! Settings of a database, and how it is opened.

use crate::cache::{Cache, CacheKey};
use crate::catalog::{ColumnCatalog, ColumnDesc, TableCatalog};
use crate::db::database::Database;
use crate::db::functions::{type_views, FunctionSummary, RowSource, ScalarFunction};
use crate::db::pipeline::{default_optimizer_pipeline, default_pipeline};
use crate::db::state::{State, StateView};
use crate::errors::DatabaseError;
use crate::planner::arena::TableArena;
use crate::storage::{StatisticsMeta, Storage, TransactionIsolationLevel, ViewCatalog};
use crate::types::index::IndexId;
use crate::types::{CharLengthUnits, LogicalType, LogicalTypeView};
use std::marker::PhantomData;
use vstd::prelude::*;

verus! {

/// Settings of a RocksDB storage.
#[derive(Clone, Copy, Debug, PartialEq, Eq, Structural)]
pub struct StorageConfig {
    pub enable_statistics: bool,
}

/// Settings of an LMDB storage.
#[derive(Clone, Copy, Debug, PartialEq, Eq, Structural)]
pub struct LmdbConfig {
    pub map_size: usize,
    /// The bits of the environment flags.
    pub flags: u32,
    pub max_readers: Option<u32>,
    pub max_dbs: Option<u32>,
    pub enable_statistics: bool,
}

/// The bits that stand for environment flags of LMDB.
pub const LMDB_KNOWN_FLAGS: u32 = 0x1ff4001;

/// The bit of the environment flag `NO_SYNC` of LMDB.
pub const LMDB_NO_SYNC: u32 = 0x10000;

/// Calls `lmdb::EnvironmentFlags::set` for the flag `NO_SYNC`: the flag is set or cleared, and the
/// other flags stay as they are. Bits that stand for no flag are dropped on the way into
/// `lmdb::EnvironmentFlags`.
#[verifier::external_body]
fn set_no_sync(flags: u32, enable: bool) -> (res: u32)
    ensures
        res == if enable {
            (flags & LMDB_KNOWN_FLAGS) | LMDB_NO_SYNC
        } else {
            (flags & LMDB_KNOWN_FLAGS) & !LMDB_NO_SYNC
        },
{
    let mut flags = lmdb::EnvironmentFlags::from_bits_truncate(flags);
    flags.set(lmdb::EnvironmentFlags::NO_SYNC, enable);
    flags.bits()
}

/// A database that is about to be opened.
#[derive(Debug, PartialEq, Eq)]
pub struct DataBaseBuilder {
    pub path: String,
    pub histogram_buckets: Option<usize>,
    pub transaction_isolation: Option<TransactionIsolationLevel>,
    pub storage_config: StorageConfig,
    pub lmdb_config: LmdbConfig,
}

/// The type of texts of any length.
pub open spec fn text_type() -> LogicalTypeView {
    LogicalTypeView::Plain(LogicalType::Varchar(None, CharLengthUnits::Characters))
}

/// Whether the function is a built-in one, and its type.
pub open spec fn builtin_type(name: Seq<char>, args: Seq<LogicalTypeView>) -> Option<
    LogicalTypeView,
> {
    if args == seq![text_type()] {
        if name == "char_length"@ || name == "character_length"@ || name == "octet_length"@ {
            Some(LogicalTypeView::Plain(LogicalType::Integer))
        } else if name == "lower"@ || name == "upper"@ {
            Some(text_type())
        } else {
            None
        }
    } else if args == Seq::<LogicalTypeView>::empty() {
        if name == "current_date"@ {
            Some(LogicalTypeView::Plain(LogicalType::Date))
        } else if name == "current_timestamp"@ {
            Some(LogicalTypeView::Plain(LogicalType::DateTime))
        } else {
            None
        }
    } else {
        None
    }
}

/// What a catalog knows before anything is loaded.
pub open spec fn opened(state: StateView, histogram_buckets: Option<usize>) -> bool {
    &&& forall|name: Seq<char>, args: Seq<LogicalTypeView>| #[trigger]
        state.scalars.contains_key((name, args)) <==> builtin_type(name, args) is Some
    &&& forall|name: Seq<char>, args: Seq<LogicalTypeView>| #[trigger]
        state.scalars.contains_key((name, args)) ==> builtin_type(name, args) == Some(
            state.scalars[(name, args)].return_type@,
        )
    &&& forall|name: Seq<char>, args: Seq<LogicalTypeView>| #[trigger]
        state.row_sources.contains_key((name, args)) <==> name == "numbers"@ && args
            == seq![LogicalTypeView::Plain(LogicalType::Integer)]
    &&& state.statistics == Map::<(Seq<char>, IndexId), StatisticsMeta>::empty()
    &&& state.tables == Map::<Seq<char>, TableCatalog>::empty()
    &&& state.views == Map::<Seq<char>, ViewCatalog>::empty()
    &&& state.pipeline == default_pipeline()
    &&& state.buckets == histogram_buckets
}

fn text_function(name: &str, return_type: LogicalType) -> (res: ScalarFunction)
    ensures
        res.summary.name() == (name@, seq![text_type()]),
        res.return_type == return_type,
{
    let mut arg_types: Vec<LogicalType> = Vec::new();
    arg_types.push(LogicalType::Varchar(None, CharLengthUnits::Characters));
    assert(type_views(arg_types@) =~= seq![text_type()]);
    ScalarFunction { summary: FunctionSummary { name: name.to_string(), arg_types }, return_type }
}

fn plain_function(name: &str, return_type: LogicalType) -> (res: ScalarFunction)
    ensures
        res.summary.name() == (name@, Seq::<LogicalTypeView>::empty()),
        res.return_type == return_type,
{
    let arg_types: Vec<LogicalType> = Vec::new();
    assert(type_views(arg_types@) =~= Seq::empty());
    ScalarFunction { summary: FunctionSummary { name: name.to_string(), arg_types }, return_type }
}

fn numbers() -> (res: RowSource)
    ensures
        res.summary.name() == ("numbers"@, seq![LogicalTypeView::Plain(LogicalType::Integer)]),
        res.columns@.len() == 1,
        res.columns@[0]@.name == "number"@,
        res.columns@[0]@.default is None,
{
    let mut arg_types: Vec<LogicalType> = Vec::new();
    arg_types.push(LogicalType::Integer);
    assert(type_views(arg_types@) =~= seq![LogicalTypeView::Plain(LogicalType::Integer)]);
    let desc = ColumnDesc {
        column_datatype: LogicalType::Integer,
        primary: None,
        unique: false,
        default: None,
    };
    let mut columns: Vec<ColumnCatalog> = Vec::new();
    columns.push(ColumnCatalog::new("number".to_string(), true, desc));
    RowSource { summary: FunctionSummary { name: "numbers".to_string(), arg_types }, columns }
}

/// Registers the built-in functions.
fn load_builtins<S>(state: &mut State<S>) -> (res: Result<(), DatabaseError>)
    requires
        old(state).wf(),
        old(state)@.scalars.dom() == Set::<(Seq<char>, Seq<LogicalTypeView>)>::empty(),
        old(state)@.row_sources.dom() == Set::<(Seq<char>, Seq<LogicalTypeView>)>::empty(),
        old(state)@.statistics.dom() == Set::<(Seq<char>, IndexId)>::empty(),
        old(state)@.tables.dom() == Set::<Seq<char>>::empty(),
        old(state)@.views.dom() == Set::<Seq<char>>::empty(),
        old(state)@.pipeline == default_pipeline(),
    ensures
        res is Ok,
        opened(final(state)@, old(state)@.buckets),
        final(state).wf(),
{
    state.load_scalar_function(text_function("char_length", LogicalType::Integer));
    state.load_scalar_function(text_function("character_length", LogicalType::Integer));
    state.load_scalar_function(plain_function("current_date", LogicalType::Date));
    state.load_scalar_function(plain_function("current_timestamp", LogicalType::DateTime));
    state.load_scalar_function(
        text_function("lower", LogicalType::Varchar(None, CharLengthUnits::Characters)),
    );
    state.load_scalar_function(text_function("octet_length", LogicalType::Integer));
    state.load_scalar_function(
        text_function("upper", LogicalType::Varchar(None, CharLengthUnits::Characters)),
    );
    let res = state.load_table_function(numbers());
    proof {
        reveal_strlit("char_length");
        reveal_strlit("character_length");
        reveal_strlit("current_date");
        reveal_strlit("current_timestamp");
        reveal_strlit("lower");
        reveal_strlit("octet_length");
        reveal_strlit("upper");
        let text = seq![text_type()];
        let empty = Seq::<LogicalTypeView>::empty();
        assert(text.len() == 1 && empty.len() == 0);
        let scalars = state@.scalars;
        let numbered = seq![LogicalTypeView::Plain(LogicalType::Integer)];
        assert forall|name: Seq<char>, args: Seq<LogicalTypeView>| #[trigger]
            scalars.contains_key((name, args)) <==> builtin_type(name, args) is Some by {
            assert(!old(state)@.scalars.dom().contains((name, args)));
        }
        assert forall|name: Seq<char>, args: Seq<LogicalTypeView>| #[trigger]
            scalars.contains_key((name, args)) implies builtin_type(name, args) == Some(
            scalars[(name, args)].return_type@,
        ) by {
            assert(LogicalType::Integer@ == LogicalTypeView::Plain(LogicalType::Integer));
            assert(LogicalType::Date@ == LogicalTypeView::Plain(LogicalType::Date));
            assert(LogicalType::DateTime@ == LogicalTypeView::Plain(LogicalType::DateTime));
            assert(LogicalType::Varchar(None, CharLengthUnits::Characters)@ == text_type());
            assert("char_length"@.len() == 11 && "character_length"@.len() == 16);
            assert("octet_length"@.len() == 12 && "lower"@.len() == 5 && "upper"@.len() == 5);
            assert("current_date"@.len() == 12 && "current_timestamp"@.len() == 17);
            assert(builtin_type(name, args) is Some);
        }
        assert forall|name: Seq<char>, args: Seq<LogicalTypeView>| #[trigger]
            state@.row_sources.contains_key((name, args)) <==> name == "numbers"@ && args
                == numbered by {
            assert(!old(state)@.row_sources.dom().contains((name, args)));
        }
        assert(state@.statistics =~= Map::empty());
        assert(state@.tables =~= Map::empty());
        assert(state@.views =~= Map::empty());
    }
    res
}

impl DataBaseBuilder {
    /// Starts the settings of a database at a path.
    pub fn path(path: String) -> (res: Self)
        ensures
            res == (DataBaseBuilder {
                path,
                histogram_buckets: None,
                transaction_isolation: None,
                storage_config: StorageConfig { enable_statistics: false },
                lmdb_config: LmdbConfig {
                    map_size: 0x40000000,
                    flags: 0,
                    max_readers: None,
                    max_dbs: None,
                    enable_statistics: false,
                },
            }),
    {
        DataBaseBuilder {
            path,
            histogram_buckets: None,
            transaction_isolation: None,
            storage_config: StorageConfig { enable_statistics: false },
            lmdb_config: LmdbConfig {
                map_size: 0x40000000,
                flags: 0,
                max_readers: None,
                max_dbs: None,
                enable_statistics: false,
            },
        }
    }

    /// Sets how many buckets a histogram has, if a statement names no number.
    pub fn histogram_buckets(self, buckets: usize) -> (res: Self)
        ensures
            res == (DataBaseBuilder { histogram_buckets: Some(buckets), ..self }),
    {
        DataBaseBuilder { histogram_buckets: Some(buckets), ..self }
    }

    /// Sets the isolation of the transactions that the database opens.
    pub fn transaction_isolation(self, isolation: TransactionIsolationLevel) -> (res: Self)
        ensures
            res == (DataBaseBuilder { transaction_isolation: Some(isolation), ..self }),
    {
        DataBaseBuilder { transaction_isolation: Some(isolation), ..self }
    }

    /// Lets the storage count what it does, or not.
    pub fn storage_statistics(self, enable: bool) -> (res: Self)
        ensures
            res == (DataBaseBuilder {
                storage_config: StorageConfig { enable_statistics: enable },
                lmdb_config: LmdbConfig { enable_statistics: enable, ..self.lmdb_config },
                ..self
            }),
    {
        DataBaseBuilder {
            storage_config: StorageConfig { enable_statistics: enable },
            lmdb_config: LmdbConfig { enable_statistics: enable, ..self.lmdb_config },
            ..self
        }
    }

    /// Sets the size of the LMDB map in bytes.
    pub fn lmdb_map_size(self, map_size: usize) -> (res: Self)
        ensures
            res == (DataBaseBuilder {
                lmdb_config: LmdbConfig { map_size, ..self.lmdb_config },
                ..self
            }),
    {
        DataBaseBuilder { lmdb_config: LmdbConfig { map_size, ..self.lmdb_config }, ..self }
    }

    /// Sets the bits of the LMDB environment flags.
    pub fn lmdb_flags(self, flags: u32) -> (res: Self)
        ensures
            res == (DataBaseBuilder {
                lmdb_config: LmdbConfig { flags, ..self.lmdb_config },
                ..self
            }),
    {
        DataBaseBuilder { lmdb_config: LmdbConfig { flags, ..self.lmdb_config }, ..self }
    }

    /// Sets or clears the LMDB environment flag `NO_SYNC`. Bits that stand for no flag are dropped.
    pub fn lmdb_no_sync(self, enable: bool) -> (res: Self)
        ensures
            res == (DataBaseBuilder {
                lmdb_config: LmdbConfig {
                    flags: if enable {
                        (self.lmdb_config.flags & LMDB_KNOWN_FLAGS) | LMDB_NO_SYNC
                    } else {
                        (self.lmdb_config.flags & LMDB_KNOWN_FLAGS) & !LMDB_NO_SYNC
                    },
                    ..self.lmdb_config
                },
                ..self
            }),
    {
        let flags: u32 = set_no_sync(self.lmdb_config.flags, enable);
        DataBaseBuilder { lmdb_config: LmdbConfig { flags, ..self.lmdb_config }, ..self }
    }

    /// Sets how many readers LMDB allows.
    pub fn lmdb_max_readers(self, max_readers: u32) -> (res: Self)
        ensures
            res == (DataBaseBuilder {
                lmdb_config: LmdbConfig { max_readers: Some(max_readers), ..self.lmdb_config },
                ..self
            }),
    {
        DataBaseBuilder {
            lmdb_config: LmdbConfig { max_readers: Some(max_readers), ..self.lmdb_config },
            ..self
        }
    }

    /// Sets how many named databases LMDB allows.
    pub fn lmdb_max_dbs(self, max_dbs: u32) -> (res: Self)
        ensures
            res == (DataBaseBuilder {
                lmdb_config: LmdbConfig { max_dbs: Some(max_dbs), ..self.lmdb_config },
                ..self
            }),
    {
        DataBaseBuilder {
            lmdb_config: LmdbConfig { max_dbs: Some(max_dbs), ..self.lmdb_config },
            ..self
        }
    }

    /// Opens the database on a storage.
    pub fn build_with_storage<S: Storage>(self, storage: S) -> (res: Result<
        Database<S>,
        DatabaseError,
    >)
        ensures
            builds(storage, self.histogram_buckets, self.transaction_isolation, res),
            res matches Ok(database) ==> database.wf(),
    {
        Self::_build(storage, self.histogram_buckets, self.transaction_isolation)
    }

    /// Opens the database on a new storage that lives and ends with it. Which storage that is, the
    /// caller says by its type.
    pub fn build_in_memory<S: Storage + Default>(self) -> (res: Result<Database<S>, DatabaseError>)
        ensures
            exists|storage: S| #[trigger]
                builds(storage, self.histogram_buckets, self.transaction_isolation, res),
            res matches Ok(database) ==> database.wf(),
    {
        let storage = S::default();
        Self::_build(storage, self.histogram_buckets, self.transaction_isolation)
    }

    /// Opens the database on a new storage of the current target. Which storage that is, the caller
    /// says by its type.
    pub fn build<S: Storage + Default>(self) -> (res: Result<Database<S>, DatabaseError>)
        ensures
            exists|storage: S| #[trigger]
                builds(storage, self.histogram_buckets, self.transaction_isolation, res),
            res matches Ok(database) ==> database.wf(),
    {
        let storage = S::default();
        Self::_build(storage, self.histogram_buckets, self.transaction_isolation)
    }

    fn _build<S: Storage>(
        storage: S,
        histogram_buckets: Option<usize>,
        transaction_isolation: Option<TransactionIsolationLevel>,
    ) -> (res: Result<Database<S>, DatabaseError>)
        ensures
            builds(storage, histogram_buckets, transaction_isolation, res),
            res matches Ok(database) ==> database.wf(),
    {
        if let Some(0) = histogram_buckets {
            return Err(DatabaseError::InvalidValue("histogram buckets must be >= 1".to_string()));
        }
        let transaction_isolation = match transaction_isolation {
            Some(isolation) => isolation,
            None => storage.default_transaction_isolation(),
        };
        let checked = storage.validate_transaction_isolation(transaction_isolation);
        assert(storage.validates(transaction_isolation, checked));
        if let Err(err) = checked {
            return Err(err);
        }
        let mut state: State<S> = State {
            scala_functions: Cache::new(),
            table_functions: Cache::new(),
            meta_cache: Cache::new(),
            table_cache: Cache::new(),
            view_cache: Cache::new(),
            table_arena: TableArena::default(),
            optimizer_pipeline: default_optimizer_pipeline(),
            histogram_buckets,
            marker: PhantomData,
        };
        proof {
            assert(state@.scalars.dom() =~= Set::empty());
            assert(state@.row_sources.dom() =~= Set::empty());
            assert(state@.statistics.dom() =~= Set::empty());
            assert(state@.tables.dom() =~= Set::empty());
            assert(state@.views.dom() =~= Set::empty());
            assert(state.wf());
        }
        if let Err(err) = load_builtins(&mut state) {
            return Err(err);
        }
        Ok(Database { storage, transaction_isolation, state })
    }
}

/// Outcomes of opening a database: a histogram needs a bucket, and the storage has to offer the
/// isolation that is asked for, or else its own.
pub open spec fn builds<S: Storage>(
    storage: S,
    histogram_buckets: Option<usize>,
    transaction_isolation: Option<TransactionIsolationLevel>,
    res: Result<Database<S>, DatabaseError>,
) -> bool {
    let isolation = match transaction_isolation {
        Some(isolation) => isolation,
        None => storage.default_isolation(),
    };
    if histogram_buckets == Some(0usize) {
        res matches Err(DatabaseError::InvalidValue(text)) && text@
            == "histogram buckets must be >= 1"@
    } else {
        validated(storage, isolation, histogram_buckets, res)
    }
}

/// Outcomes of opening a database once the isolation is settled.
pub open spec fn validated<S: Storage>(
    storage: S,
    isolation: TransactionIsolationLevel,
    histogram_buckets: Option<usize>,
    res: Result<Database<S>, DatabaseError>,
) -> bool {
    exists|checked: Result<(), DatabaseError>|
        {
            &&& #[trigger] storage.validates(isolation, checked)
            &&& match checked {
                Err(err) => res matches Err(e) && e == err,
                Ok(_) => res matches Ok(database) && database.storage == storage
                    && database.transaction_isolation == isolation && opened(
                    database.state@,
                    histogram_buckets,
                ),
            }
        }
}

} // verus!
