//! How tables are tuned, how numbers are written, and what a rollback looks like from outside.

use perpetual_tables::config::{
    effects_table_default_config, events_table_default_config,
    indirect_move_objects_table_default_config, objects_table_default_config,
    owned_object_transaction_locks_table_default_config, transactions_table_default_config,
    TableOptions, ReadPattern, ENV_VAR_EFFECTS_BLOCK_CACHE_SIZE, ENV_VAR_EVENTS_BLOCK_CACHE_SIZE,
    ENV_VAR_INDIRECT_OBJECTS_BLOCK_CACHE_SIZE, ENV_VAR_LOCKS_BLOCK_CACHE_SIZE,
    ENV_VAR_OBJECTS_BLOCK_CACHE_SIZE, ENV_VAR_TRANSACTIONS_BLOCK_CACHE_SIZE,
};
use perpetual_tables::rollback_prologue::{EpochQuery, RollbackPrologueTransaction};
use perpetual_tables::text::{decimal_text, hex_text};

fn tuned(read_pattern: ReadPattern) -> TableOptions {
    TableOptions {
        optimize_for_write_throughput: true,
        read_pattern,
        ignore_range_deletions: None,
        reference_counted: false,
    }
}

#[test]
fn default_cache_sizes() {
    assert_eq!(objects_table_default_config(None), tuned(ReadPattern::Read(5 * 1024)));
    assert_eq!(transactions_table_default_config(None), tuned(ReadPattern::PointLookup(512)));
    assert_eq!(effects_table_default_config(None), tuned(ReadPattern::PointLookup(1024)));
    assert_eq!(events_table_default_config(None), tuned(ReadPattern::Read(1024)));
    let mut locks = tuned(ReadPattern::Read(1024));
    locks.ignore_range_deletions = Some(false);
    assert_eq!(owned_object_transaction_locks_table_default_config(None), locks);
    let mut indirect = tuned(ReadPattern::PointLookup(512));
    indirect.reference_counted = true;
    assert_eq!(indirect_move_objects_table_default_config(None), indirect);
}

#[test]
fn cache_sizes_on_demand() {
    assert_eq!(objects_table_default_config(Some(3)).read_pattern, ReadPattern::Read(3));
    assert_eq!(
        transactions_table_default_config(Some(3)).read_pattern,
        ReadPattern::PointLookup(3)
    );
    assert_eq!(effects_table_default_config(Some(3)).read_pattern, ReadPattern::PointLookup(3));
    assert_eq!(events_table_default_config(Some(3)).read_pattern, ReadPattern::Read(3));
    assert_eq!(
        owned_object_transaction_locks_table_default_config(Some(3)).read_pattern,
        ReadPattern::Read(3)
    );
    assert_eq!(
        indirect_move_objects_table_default_config(Some(3)).read_pattern,
        ReadPattern::PointLookup(3)
    );
}

#[test]
fn names_of_variables() {
    assert_eq!(ENV_VAR_OBJECTS_BLOCK_CACHE_SIZE, "OBJECTS_BLOCK_CACHE_MB");
    assert_eq!(ENV_VAR_LOCKS_BLOCK_CACHE_SIZE, "LOCKS_BLOCK_CACHE_MB");
    assert_eq!(ENV_VAR_TRANSACTIONS_BLOCK_CACHE_SIZE, "TRANSACTIONS_BLOCK_CACHE_MB");
    assert_eq!(ENV_VAR_EFFECTS_BLOCK_CACHE_SIZE, "EFFECTS_BLOCK_CACHE_MB");
    assert_eq!(ENV_VAR_EVENTS_BLOCK_CACHE_SIZE, "EVENTS_BLOCK_CACHE_MB");
    assert_eq!(ENV_VAR_INDIRECT_OBJECTS_BLOCK_CACHE_SIZE, "INDIRECT_OBJECTS_BLOCK_CACHE_MB");
}

#[test]
fn numbers_are_written_out() {
    for n in [0, 9, 10, 99, 100, 18446744073709551615] {
        assert_eq!(decimal_text(n), n.to_string());
    }
    assert_eq!(hex_text(0xdead_beef, 8), "deadbeef");
    assert_eq!(hex_text(0x12, 4), "0012");
    assert_eq!(hex_text(0x12345, 2), "45");
}

#[test]
fn the_beginning_of_a_rollback_is_shown() {
    let prologue = RollbackPrologueTransaction {
        epoch: 5,
        checkpoint_sequence_number: 50,
        timestamp_ms: 1_700_000_000_000,
        checkpoint_viewed_at: 60,
    };
    assert_eq!(
        prologue.epoch(),
        EpochQuery { epoch: Some(5), checkpoint_viewed_at: Some(60) }
    );
    assert_eq!(prologue.checkpoint_sequence_number(), 50);
    assert_eq!(prologue.timestamp(), 1_700_000_000_000);
    let far = RollbackPrologueTransaction { timestamp_ms: u64::MAX, ..prologue };
    assert_eq!(far.timestamp(), -1);
    let edge = RollbackPrologueTransaction { timestamp_ms: 1 << 63, ..prologue };
    assert_eq!(edge.timestamp(), i64::MIN);
}
