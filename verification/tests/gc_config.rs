use replica_read::gc_config::{
    AutoCompactionConfig, AutoCompactionConfigChange, ConfigError, GcConfig, GcConfigChange,
    GcWorkerConfigManager, ReadableDuration, ReadableSize, DEFAULT_GC_BATCH_KEYS,
};

fn no_change() -> GcConfigChange {
    GcConfigChange {
        ratio_threshold_bits: None,
        batch_keys: None,
        max_write_bytes_per_sec: None,
        enable_compaction_filter: None,
        compaction_filter_skip_version_check: None,
        num_threads: None,
        auto_compaction: None,
    }
}

fn no_auto_change() -> AutoCompactionConfigChange {
    AutoCompactionConfigChange {
        check_interval: None,
        tombstones_num_threshold: None,
        tombstones_percent_threshold: None,
        redundant_rows_threshold: None,
        redundant_rows_percent_threshold: None,
        bottommost_level_force: None,
    }
}

#[test]
fn default_auto_compaction_config() {
    let cfg = AutoCompactionConfig::default();
    assert_eq!(cfg.check_interval, ReadableDuration::secs(300));
    assert_eq!(cfg.check_interval.as_secs(), 300);
    assert_eq!(cfg.tombstones_num_threshold, 10000);
    assert_eq!(cfg.tombstones_percent_threshold, 30);
    assert_eq!(cfg.redundant_rows_threshold, 50000);
    assert_eq!(cfg.redundant_rows_percent_threshold, 20);
    assert!(!cfg.bottommost_level_force);
    assert_eq!(cfg.validate(), Ok(()));
}

#[test]
fn default_gc_config() {
    let cfg = GcConfig::default();
    assert_eq!(f64::from_bits(cfg.ratio_threshold_bits), 1.1);
    assert_eq!(cfg.batch_keys, 512);
    assert_eq!(DEFAULT_GC_BATCH_KEYS, 512);
    assert_eq!(cfg.max_write_bytes_per_sec, ReadableSize(0));
    assert!(cfg.enable_compaction_filter);
    assert!(!cfg.compaction_filter_skip_version_check);
    assert_eq!(cfg.num_threads, 1);
    assert_eq!(cfg.auto_compaction, AutoCompactionConfig::default());
    assert_eq!(cfg.validate(), Ok(()));
}

#[test]
fn auto_compaction_check_interval_must_not_be_zero() {
    let mut cfg = AutoCompactionConfig::default();
    cfg.check_interval = ReadableDuration::secs(0);
    assert_eq!(cfg.validate(), Err(ConfigError::CheckIntervalZero));
    // Less than a second counts as zero seconds.
    cfg.check_interval = ReadableDuration { secs: 0, subsec_nanos: 999_999_999 };
    assert_eq!(cfg.validate(), Err(ConfigError::CheckIntervalZero));
    cfg.check_interval = ReadableDuration::secs(1);
    assert_eq!(cfg.validate(), Ok(()));
}

#[test]
fn auto_compaction_percentages_must_not_exceed_100() {
    let mut cfg = AutoCompactionConfig::default();
    cfg.tombstones_percent_threshold = 100;
    cfg.redundant_rows_percent_threshold = 100;
    assert_eq!(cfg.validate(), Ok(()));
    cfg.tombstones_percent_threshold = 101;
    assert_eq!(cfg.validate(), Err(ConfigError::TombstonesPercentThresholdExceeds100));
    cfg.redundant_rows_percent_threshold = 101;
    // The first fault is the one reported.
    assert_eq!(cfg.validate(), Err(ConfigError::TombstonesPercentThresholdExceeds100));
    cfg.tombstones_percent_threshold = 0;
    assert_eq!(cfg.validate(), Err(ConfigError::RedundantRowsPercentThresholdExceeds100));
    cfg.check_interval = ReadableDuration::secs(0);
    assert_eq!(cfg.validate(), Err(ConfigError::CheckIntervalZero));
}

#[test]
fn gc_config_faults_in_order() {
    let mut cfg = GcConfig::default();
    cfg.auto_compaction.tombstones_percent_threshold = 200;
    assert_eq!(cfg.validate(), Err(ConfigError::TombstonesPercentThresholdExceeds100));
    cfg.num_threads = 0;
    assert_eq!(cfg.validate(), Err(ConfigError::ThreadCountZero));
    cfg.batch_keys = 0;
    assert_eq!(cfg.validate(), Err(ConfigError::BatchKeysZero));
}

#[test]
fn error_messages() {
    assert_eq!(
        ConfigError::CheckIntervalZero.message(),
        "auto_compaction.check_interval should not be 0"
    );
    assert_eq!(
        ConfigError::TombstonesPercentThresholdExceeds100.message(),
        "auto_compaction.tombstones_percent_threshold should not exceed 100"
    );
    assert_eq!(
        ConfigError::RedundantRowsPercentThresholdExceeds100.message(),
        "auto_compaction.redundant_rows_percent_threshold should not exceed 100"
    );
    assert_eq!(ConfigError::BatchKeysZero.message(), "gc.batch_keys should not be 0");
    assert_eq!(ConfigError::ThreadCountZero.message(), "gc.thread_count should not be 0");
}

#[test]
fn update_replaces_named_values_only() {
    let mut cfg = GcConfig::default();
    cfg.update(&no_change());
    assert_eq!(cfg, GcConfig::default());
    let change = GcConfigChange {
        batch_keys: Some(1024),
        max_write_bytes_per_sec: Some(ReadableSize(4096)),
        enable_compaction_filter: Some(false),
        auto_compaction: Some(AutoCompactionConfigChange {
            tombstones_num_threshold: Some(7),
            bottommost_level_force: Some(true),
            ..no_auto_change()
        }),
        ..no_change()
    };
    cfg.update(&change);
    let mut expected = GcConfig::default();
    expected.batch_keys = 1024;
    expected.max_write_bytes_per_sec = ReadableSize(4096);
    expected.enable_compaction_filter = false;
    expected.auto_compaction.tombstones_num_threshold = 7;
    expected.auto_compaction.bottommost_level_force = true;
    assert_eq!(cfg, expected);
}

#[test]
fn update_of_every_field() {
    let mut cfg = GcConfig::default();
    cfg.update(&GcConfigChange {
        ratio_threshold_bits: Some(2.5f64.to_bits()),
        batch_keys: Some(1),
        max_write_bytes_per_sec: Some(ReadableSize(2)),
        enable_compaction_filter: Some(false),
        compaction_filter_skip_version_check: Some(true),
        num_threads: Some(3),
        auto_compaction: Some(AutoCompactionConfigChange {
            check_interval: Some(ReadableDuration::secs(4)),
            tombstones_num_threshold: Some(5),
            tombstones_percent_threshold: Some(6),
            redundant_rows_threshold: Some(7),
            redundant_rows_percent_threshold: Some(8),
            bottommost_level_force: Some(true),
        }),
    });
    assert_eq!(
        cfg,
        GcConfig {
            ratio_threshold_bits: 2.5f64.to_bits(),
            batch_keys: 1,
            max_write_bytes_per_sec: ReadableSize(2),
            enable_compaction_filter: false,
            compaction_filter_skip_version_check: true,
            num_threads: 3,
            auto_compaction: AutoCompactionConfig {
                check_interval: ReadableDuration::secs(4),
                tombstones_num_threshold: 5,
                tombstones_percent_threshold: 6,
                redundant_rows_threshold: 7,
                redundant_rows_percent_threshold: 8,
                bottommost_level_force: true,
            },
        }
    );
}

#[test]
fn dispatch_scales_pool_only_where_there_is_one() {
    let change = GcConfigChange { num_threads: Some(8), ..no_change() };
    let mut with_pool = GcWorkerConfigManager::new(GcConfig::default(), true);
    assert_eq!(with_pool.dispatch(change), Some(8));
    assert_eq!(with_pool.value().num_threads, 8);
    assert_eq!(with_pool.version, 1);
    let mut without_pool = GcWorkerConfigManager::default();
    assert!(!without_pool.has_pool);
    assert_eq!(without_pool.dispatch(change), None);
    assert_eq!(without_pool.value().num_threads, 8);
    // A change that names no thread count scales nothing.
    assert_eq!(with_pool.dispatch(GcConfigChange { batch_keys: Some(9), ..no_change() }), None);
    assert_eq!(with_pool.value().batch_keys, 9);
    assert_eq!(with_pool.value().num_threads, 8);
    assert_eq!(with_pool.version, 2);
}

#[test]
fn dispatch_counts_changes_modulo_two_to_the_64() {
    let mut manager = GcWorkerConfigManager::new(GcConfig::default(), false);
    assert_eq!(manager.version, 0);
    manager.dispatch(no_change());
    assert_eq!(manager.version, 1);
    manager.version = u64::MAX;
    manager.dispatch(no_change());
    assert_eq!(manager.version, 0);
    assert_eq!(manager.value(), GcConfig::default());
}
