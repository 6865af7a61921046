//! How the tables are tuned.

use vstd::prelude::*;

verus! {

/// The variables of the environment that set the sizes of block caches, in megabytes.
pub const ENV_VAR_OBJECTS_BLOCK_CACHE_SIZE: &'static str = "OBJECTS_BLOCK_CACHE_MB";
pub const ENV_VAR_LOCKS_BLOCK_CACHE_SIZE: &'static str = "LOCKS_BLOCK_CACHE_MB";
pub const ENV_VAR_TRANSACTIONS_BLOCK_CACHE_SIZE: &'static str = "TRANSACTIONS_BLOCK_CACHE_MB";
pub const ENV_VAR_EFFECTS_BLOCK_CACHE_SIZE: &'static str = "EFFECTS_BLOCK_CACHE_MB";
pub const ENV_VAR_EVENTS_BLOCK_CACHE_SIZE: &'static str = "EVENTS_BLOCK_CACHE_MB";
pub const ENV_VAR_INDIRECT_OBJECTS_BLOCK_CACHE_SIZE: &'static str = "INDIRECT_OBJECTS_BLOCK_CACHE_MB";

/// What a table is read for, with the size of its block cache in megabytes.
#[derive(Clone, Copy, Debug, PartialEq, Eq)]
pub enum ReadPattern {
    /// Rows are looked up and walked.
    Read(usize),
    /// Rows are only looked up.
    PointLookup(usize),
}

/// How one table is tuned, starting from the defaults of the store.
#[derive(Clone, Copy, Debug, PartialEq, Eq)]
pub struct TableOptions {
    /// Writing is tuned for throughput.
    pub optimize_for_write_throughput: bool,
    pub read_pattern: ReadPattern,
    /// Whether reads may overlook that a range was deleted; `None` leaves the default.
    pub ignore_range_deletions: Option<bool>,
    /// Rows are merged by counting the references to them, and a compaction drops rows that ended up
    /// empty.
    pub reference_counted: bool,
}

/// The size of a cache: the one that was asked for, or else the default.
pub open spec fn cache_size(asked: Option<usize>, default: usize) -> usize {
    match asked {
        Some(size) => size,
        None => default,
    }
}

/// A table tuned for writing and for this way of reading.
pub open spec fn tuned(read_pattern: ReadPattern) -> TableOptions {
    TableOptions {
        optimize_for_write_throughput: true,
        read_pattern,
        ignore_range_deletions: None,
        reference_counted: false,
    }
}

fn size_or(asked: Option<usize>, default: usize) -> (r: usize)
    ensures
        r == cache_size(asked, default),
{
    match asked {
        Some(size) => size,
        None => default,
    }
}

fn write_tuned(read_pattern: ReadPattern) -> (r: TableOptions)
    ensures
        r == tuned(read_pattern),
{
    TableOptions {
        optimize_for_write_throughput: true,
        read_pattern,
        ignore_range_deletions: None,
        reference_counted: false,
    }
}

/// How the table of locks is tuned. Locks are deleted by ranges, which reads must see.
pub fn owned_object_transaction_locks_table_default_config(cache_mb: Option<usize>) -> (r: TableOptions)
    ensures
        r == (TableOptions {
            ignore_range_deletions: Some(false),
            ..tuned(ReadPattern::Read(cache_size(cache_mb, 1024)))
        }),
{
    let mut options = write_tuned(ReadPattern::Read(size_or(cache_mb, 1024)));
    options.ignore_range_deletions = Some(false);
    options
}

/// How the table of objects is tuned.
pub fn objects_table_default_config(cache_mb: Option<usize>) -> (r: TableOptions)
    ensures
        r == tuned(ReadPattern::Read(cache_size(cache_mb, 5120))),
{
    write_tuned(ReadPattern::Read(size_or(cache_mb, 5 * 1024)))
}

/// How the table of transactions is tuned.
pub fn transactions_table_default_config(cache_mb: Option<usize>) -> (r: TableOptions)
    ensures
        r == tuned(ReadPattern::PointLookup(cache_size(cache_mb, 512))),
{
    write_tuned(ReadPattern::PointLookup(size_or(cache_mb, 512)))
}

/// How the table of effects is tuned.
pub fn effects_table_default_config(cache_mb: Option<usize>) -> (r: TableOptions)
    ensures
        r == tuned(ReadPattern::PointLookup(cache_size(cache_mb, 1024))),
{
    write_tuned(ReadPattern::PointLookup(size_or(cache_mb, 1024)))
}

/// How the table of events is tuned.
pub fn events_table_default_config(cache_mb: Option<usize>) -> (r: TableOptions)
    ensures
        r == tuned(ReadPattern::Read(cache_size(cache_mb, 1024))),
{
    write_tuned(ReadPattern::Read(size_or(cache_mb, 1024)))
}

/// How the table of indirect objects is tuned.
pub fn indirect_move_objects_table_default_config(cache_mb: Option<usize>) -> (r: TableOptions)
    ensures
        r == (TableOptions {
            reference_counted: true,
            ..tuned(ReadPattern::PointLookup(cache_size(cache_mb, 512)))
        }),
{
    let mut options = write_tuned(ReadPattern::PointLookup(size_or(cache_mb, 512)));
    options.reference_counted = true;
    options
}

/// A size that was asked for is taken, whatever it is; the default is taken only where none was.
pub proof fn sizes_that_were_asked_for_are_taken(size: usize, default: usize)
    ensures
        cache_size(Some(size), default) == size,
        cache_size(None, default) == default,
{
}

/// A tuned table is tuned for writing and read as asked; it leaves the treatment of range deletions to
/// the store, and counts no references.
pub proof fn tables_are_tuned_for_writing(read_pattern: ReadPattern)
    ensures
        tuned(read_pattern).optimize_for_write_throughput,
        tuned(read_pattern).read_pattern == read_pattern,
        tuned(read_pattern).ignore_range_deletions is None,
        !tuned(read_pattern).reference_counted,
{
}

} // verus!
