//! Configuration of the garbage-collection worker: its values, what makes
//! them valid, and how a change made while the worker runs is applied.

use vstd::prelude::*;

verus! {

/// Keys handled in one batch unless configured otherwise.
pub const DEFAULT_GC_BATCH_KEYS: usize = 512;

/// Bit pattern, as an IEEE 754 double, of the default ratio threshold 1.1.
pub const DEFAULT_GC_RATIO_THRESHOLD_BITS: u64 = 0x3ff1_9999_9999_999a;

/// Default limit on bytes written per second; zero means no limit.
pub const DEFAULT_GC_MAX_WRITE_BYTES_PER_SEC: u64 = 0;

/// Default seconds between two checks for compaction candidates.
pub const DEFAULT_AUTO_COMPACTION_CHECK_INTERVAL_SECS: u64 = 300;

/// Default least number of tombstones that triggers a compaction.
pub const DEFAULT_TOMBSTONES_NUM_THRESHOLD: u64 = 10000;

/// Default least percentage of tombstones that triggers a compaction.
pub const DEFAULT_TOMBSTONES_PERCENT_THRESHOLD: u64 = 30;

/// Default least number of redundant rows that triggers a compaction.
pub const DEFAULT_REDUNDANT_ROWS_THRESHOLD: u64 = 50000;

/// Default least percentage of redundant rows that triggers a compaction.
pub const DEFAULT_REDUNDANT_ROWS_PERCENT_THRESHOLD: u64 = 20;

/// A span of time as it is written in a configuration: whole seconds and
/// the nanoseconds beyond them.
#[derive(Clone, Copy, Debug, PartialEq, Eq, Structural)]
pub struct ReadableDuration {
    pub secs: u64,
    pub subsec_nanos: u32,
}

impl ReadableDuration {
    /// A span of `secs` whole seconds.
    pub fn secs(secs: u64) -> (res: ReadableDuration)
        ensures
            res == (ReadableDuration { secs, subsec_nanos: 0 }),
    {
        ReadableDuration { secs, subsec_nanos: 0 }
    }

    /// The whole seconds of the span.
    pub fn as_secs(&self) -> (s: u64)
        ensures
            s == self.secs,
    {
        self.secs
    }
}

/// A number of bytes as it is written in a configuration.
#[derive(Clone, Copy, Debug, PartialEq, Eq, Structural)]
pub struct ReadableSize(pub u64);

/// Why a configuration is refused.
#[derive(Clone, Copy, Debug, PartialEq, Eq, Structural)]
pub enum ConfigError {
    /// The interval between two compaction checks is shorter than a second.
    CheckIntervalZero,
    /// The tombstone percentage is above 100.
    TombstonesPercentThresholdExceeds100,
    /// The redundant-row percentage is above 100.
    RedundantRowsPercentThresholdExceeds100,
    /// A batch would hold no key.
    BatchKeysZero,
    /// The worker would have no thread.
    ThreadCountZero,
}

impl ConfigError {
    /// The sentence that reports this error.
    pub fn message(&self) -> (m: &'static str)
        ensures
            m@ == match *self {
                ConfigError::CheckIntervalZero => "auto_compaction.check_interval should not be 0"@,
                ConfigError::TombstonesPercentThresholdExceeds100 =>
                    "auto_compaction.tombstones_percent_threshold should not exceed 100"@,
                ConfigError::RedundantRowsPercentThresholdExceeds100 =>
                    "auto_compaction.redundant_rows_percent_threshold should not exceed 100"@,
                ConfigError::BatchKeysZero => "gc.batch_keys should not be 0"@,
                ConfigError::ThreadCountZero => "gc.thread_count should not be 0"@,
            },
    {
        match self {
            ConfigError::CheckIntervalZero => "auto_compaction.check_interval should not be 0",
            ConfigError::TombstonesPercentThresholdExceeds100 => {
                "auto_compaction.tombstones_percent_threshold should not exceed 100"
            },
            ConfigError::RedundantRowsPercentThresholdExceeds100 => {
                "auto_compaction.redundant_rows_percent_threshold should not exceed 100"
            },
            ConfigError::BatchKeysZero => "gc.batch_keys should not be 0",
            ConfigError::ThreadCountZero => "gc.thread_count should not be 0",
        }
    }
}

/// When the worker compacts a region on its own.
#[derive(Clone, Copy, Debug, PartialEq, Eq, Structural)]
pub struct AutoCompactionConfig {
    /// How often to check for new compaction candidates.
    pub check_interval: ReadableDuration,
    /// Minimum number of tombstones to trigger compaction.
    pub tombstones_num_threshold: u64,
    /// Minimum percentage of tombstones to trigger compaction.
    pub tombstones_percent_threshold: u64,
    /// Minimum number of redundant rows to trigger compaction.
    pub redundant_rows_threshold: u64,
    /// Minimum percentage of redundant rows to trigger compaction.
    pub redundant_rows_percent_threshold: u64,
    /// Force compaction of the bottommost level.
    pub bottommost_level_force: bool,
}

impl Default for AutoCompactionConfig {
    fn default() -> (res: AutoCompactionConfig)
        ensures
            res == AutoCompactionConfig::spec_default(),
    {
        AutoCompactionConfig {
            check_interval: ReadableDuration::secs(DEFAULT_AUTO_COMPACTION_CHECK_INTERVAL_SECS),
            tombstones_num_threshold: DEFAULT_TOMBSTONES_NUM_THRESHOLD,
            tombstones_percent_threshold: DEFAULT_TOMBSTONES_PERCENT_THRESHOLD,
            redundant_rows_threshold: DEFAULT_REDUNDANT_ROWS_THRESHOLD,
            redundant_rows_percent_threshold: DEFAULT_REDUNDANT_ROWS_PERCENT_THRESHOLD,
            bottommost_level_force: false,
        }
    }
}

impl AutoCompactionConfig {
    /// The configuration in force where none is written.
    pub open spec fn spec_default() -> AutoCompactionConfig {
        AutoCompactionConfig {
            check_interval: ReadableDuration { secs: 300, subsec_nanos: 0 },
            tombstones_num_threshold: 10000,
            tombstones_percent_threshold: 30,
            redundant_rows_threshold: 50000,
            redundant_rows_percent_threshold: 20,
            bottommost_level_force: false,
        }
    }

    /// The first fault of the configuration, if it has one.
    pub open spec fn fault(self) -> Option<ConfigError> {
        if self.check_interval.secs == 0 {
            Some(ConfigError::CheckIntervalZero)
        } else if self.tombstones_percent_threshold > 100 {
            Some(ConfigError::TombstonesPercentThresholdExceeds100)
        } else if self.redundant_rows_percent_threshold > 100 {
            Some(ConfigError::RedundantRowsPercentThresholdExceeds100)
        } else {
            None
        }
    }

    /// Accepts the configuration, or names its first fault.
    pub fn validate(&self) -> (res: Result<(), ConfigError>)
        ensures
            res == match self.fault() {
                Some(e) => Err::<(), ConfigError>(e),
                None => Ok(()),
            },
    {
        if self.check_interval.as_secs() == 0 {
            return Err(ConfigError::CheckIntervalZero);
        }
        if self.tombstones_percent_threshold > 100 {
            return Err(ConfigError::TombstonesPercentThresholdExceeds100);
        }
        if self.redundant_rows_percent_threshold > 100 {
            return Err(ConfigError::RedundantRowsPercentThresholdExceeds100);
        }
        Ok(())
    }

    /// The configuration with each value that `change` names replaced.
    pub open spec fn updated(self, change: AutoCompactionConfigChange) -> AutoCompactionConfig {
        AutoCompactionConfig {
            check_interval: change.check_interval.unwrap_or(self.check_interval),
            tombstones_num_threshold: change.tombstones_num_threshold.unwrap_or(
                self.tombstones_num_threshold,
            ),
            tombstones_percent_threshold: change.tombstones_percent_threshold.unwrap_or(
                self.tombstones_percent_threshold,
            ),
            redundant_rows_threshold: change.redundant_rows_threshold.unwrap_or(
                self.redundant_rows_threshold,
            ),
            redundant_rows_percent_threshold: change.redundant_rows_percent_threshold.unwrap_or(
                self.redundant_rows_percent_threshold,
            ),
            bottommost_level_force: change.bottommost_level_force.unwrap_or(
                self.bottommost_level_force,
            ),
        }
    }

    /// Replaces each value that `change` names.
    pub fn update(&mut self, change: &AutoCompactionConfigChange)
        ensures
            *final(self) == old(self).updated(*change),
    {
        if let Some(v) = change.check_interval {
            self.check_interval = v;
        }
        if let Some(v) = change.tombstones_num_threshold {
            self.tombstones_num_threshold = v;
        }
        if let Some(v) = change.tombstones_percent_threshold {
            self.tombstones_percent_threshold = v;
        }
        if let Some(v) = change.redundant_rows_threshold {
            self.redundant_rows_threshold = v;
        }
        if let Some(v) = change.redundant_rows_percent_threshold {
            self.redundant_rows_percent_threshold = v;
        }
        if let Some(v) = change.bottommost_level_force {
            self.bottommost_level_force = v;
        }
    }
}

/// New values for some of the fields of an `AutoCompactionConfig`.
#[derive(Clone, Copy, Debug, PartialEq, Eq, Structural)]
pub struct AutoCompactionConfigChange {
    pub check_interval: Option<ReadableDuration>,
    pub tombstones_num_threshold: Option<u64>,
    pub tombstones_percent_threshold: Option<u64>,
    pub redundant_rows_threshold: Option<u64>,
    pub redundant_rows_percent_threshold: Option<u64>,
    pub bottommost_level_force: Option<bool>,
}

/// How the worker collects garbage.
#[derive(Clone, Copy, Debug, PartialEq, Eq, Structural)]
pub struct GcConfig {
    /// The ratio threshold, as the bit pattern of an IEEE 754 double.
    pub ratio_threshold_bits: u64,
    pub batch_keys: usize,
    pub max_write_bytes_per_sec: ReadableSize,
    pub enable_compaction_filter: bool,
    /// The compaction filter works only with a cluster of a recent enough
    /// version; this switches that check off.
    pub compaction_filter_skip_version_check: bool,
    /// Number of threads of the worker.
    pub num_threads: usize,
    /// When the worker compacts on its own.
    pub auto_compaction: AutoCompactionConfig,
}

impl Default for GcConfig {
    fn default() -> (res: GcConfig)
        ensures
            res == GcConfig::spec_default(),
    {
        GcConfig {
            ratio_threshold_bits: DEFAULT_GC_RATIO_THRESHOLD_BITS,
            batch_keys: DEFAULT_GC_BATCH_KEYS,
            max_write_bytes_per_sec: ReadableSize(DEFAULT_GC_MAX_WRITE_BYTES_PER_SEC),
            enable_compaction_filter: true,
            compaction_filter_skip_version_check: false,
            num_threads: 1,
            auto_compaction: AutoCompactionConfig::default(),
        }
    }
}

impl GcConfig {
    /// The configuration in force where none is written.
    pub open spec fn spec_default() -> GcConfig {
        GcConfig {
            ratio_threshold_bits: 0x3ff1_9999_9999_999a,
            batch_keys: 512,
            max_write_bytes_per_sec: ReadableSize(0),
            enable_compaction_filter: true,
            compaction_filter_skip_version_check: false,
            num_threads: 1,
            auto_compaction: AutoCompactionConfig::spec_default(),
        }
    }

    /// The first fault of the configuration, if it has one.
    pub open spec fn fault(self) -> Option<ConfigError> {
        if self.batch_keys == 0 {
            Some(ConfigError::BatchKeysZero)
        } else if self.num_threads == 0 {
            Some(ConfigError::ThreadCountZero)
        } else {
            self.auto_compaction.fault()
        }
    }

    /// Accepts the configuration, or names its first fault.
    pub fn validate(&self) -> (res: Result<(), ConfigError>)
        ensures
            res == match self.fault() {
                Some(e) => Err::<(), ConfigError>(e),
                None => Ok(()),
            },
    {
        if self.batch_keys == 0 {
            return Err(ConfigError::BatchKeysZero);
        }
        if self.num_threads == 0 {
            return Err(ConfigError::ThreadCountZero);
        }
        self.auto_compaction.validate()
    }

    /// The configuration with each value that `change` names replaced.
    pub open spec fn updated(self, change: GcConfigChange) -> GcConfig {
        GcConfig {
            ratio_threshold_bits: change.ratio_threshold_bits.unwrap_or(self.ratio_threshold_bits),
            batch_keys: change.batch_keys.unwrap_or(self.batch_keys),
            max_write_bytes_per_sec: change.max_write_bytes_per_sec.unwrap_or(
                self.max_write_bytes_per_sec,
            ),
            enable_compaction_filter: change.enable_compaction_filter.unwrap_or(
                self.enable_compaction_filter,
            ),
            compaction_filter_skip_version_check:
                change.compaction_filter_skip_version_check.unwrap_or(
                self.compaction_filter_skip_version_check,
            ),
            num_threads: change.num_threads.unwrap_or(self.num_threads),
            auto_compaction: match change.auto_compaction {
                Some(inner) => self.auto_compaction.updated(inner),
                None => self.auto_compaction,
            },
        }
    }

    /// Replaces each value that `change` names.
    pub fn update(&mut self, change: &GcConfigChange)
        ensures
            *final(self) == old(self).updated(*change),
    {
        if let Some(v) = change.ratio_threshold_bits {
            self.ratio_threshold_bits = v;
        }
        if let Some(v) = change.batch_keys {
            self.batch_keys = v;
        }
        if let Some(v) = change.max_write_bytes_per_sec {
            self.max_write_bytes_per_sec = v;
        }
        if let Some(v) = change.enable_compaction_filter {
            self.enable_compaction_filter = v;
        }
        if let Some(v) = change.compaction_filter_skip_version_check {
            self.compaction_filter_skip_version_check = v;
        }
        if let Some(v) = change.num_threads {
            self.num_threads = v;
        }
        if let Some(inner) = change.auto_compaction {
            self.auto_compaction.update(&inner);
        }
    }
}

/// New values for some of the fields of a `GcConfig`.
#[derive(Clone, Copy, Debug, PartialEq, Eq, Structural)]
pub struct GcConfigChange {
    pub ratio_threshold_bits: Option<u64>,
    pub batch_keys: Option<usize>,
    pub max_write_bytes_per_sec: Option<ReadableSize>,
    pub enable_compaction_filter: Option<bool>,
    pub compaction_filter_skip_version_check: Option<bool>,
    pub num_threads: Option<usize>,
    pub auto_compaction: Option<AutoCompactionConfigChange>,
}

/// Keeps the configuration of a running worker and counts its changes.
///
/// The worker's threads live in a pool outside this crate. The manager
/// knows only whether there is one; `dispatch` tells its caller to what
/// size the pool is to be scaled.
#[derive(Clone, Copy, Debug, PartialEq, Eq, Structural)]
pub struct GcWorkerConfigManager {
    /// The configuration in force.
    pub config: GcConfig,
    /// How many changes have been applied, counted modulo 2^64.
    pub version: u64,
    /// Whether the worker has a thread pool to scale.
    pub has_pool: bool,
}

impl Default for GcWorkerConfigManager {
    fn default() -> (res: GcWorkerConfigManager)
        ensures
            res == (GcWorkerConfigManager {
                config: GcConfig::spec_default(),
                version: 0,
                has_pool: false,
            }),
    {
        GcWorkerConfigManager { config: GcConfig::default(), version: 0, has_pool: false }
    }
}

impl GcWorkerConfigManager {
    /// A manager that starts from `config`.
    pub fn new(config: GcConfig, has_pool: bool) -> (res: GcWorkerConfigManager)
        ensures
            res == (GcWorkerConfigManager { config, version: 0, has_pool }),
    {
        GcWorkerConfigManager { config, version: 0, has_pool }
    }

    /// The size to which `change` asks the pool to be scaled, if it names a
    /// thread count and there is a pool.
    pub open spec fn pool_size_after(self, change: GcConfigChange) -> Option<usize> {
        if self.has_pool {
            change.num_threads
        } else {
            None
        }
    }

    /// Applies `change` to the configuration in force, counts it, and
    /// returns the size to which the caller is to scale the thread pool.
    pub fn dispatch(&mut self, change: GcConfigChange) -> (pool_size: Option<usize>)
        ensures
            pool_size == old(self).pool_size_after(change),
            final(self).config == old(self).config.updated(change),
            final(self).version == if old(self).version == u64::MAX {
                0
            } else {
                old(self).version + 1
            },
            final(self).has_pool == old(self).has_pool,
    {
        let pool_size: Option<usize> = if self.has_pool {
            change.num_threads
        } else {
            None
        };
        self.config.update(&change);
        self.version = if self.version == u64::MAX {
            0
        } else {
            self.version + 1
        };
        pool_size
    }

    /// The configuration in force.
    pub fn value(&self) -> (res: GcConfig)
        ensures
            res == self.config,
    {
        self.config
    }
}

/// The configuration in force where none is written is valid.
pub proof fn lemma_default_is_valid()
    ensures
        GcConfig::spec_default().fault() is None,
        AutoCompactionConfig::spec_default().fault() is None,
{
}

/// A change that names no value changes nothing.
pub proof fn lemma_empty_change_changes_nothing(config: GcConfig)
    ensures
        config.updated(
            GcConfigChange {
                ratio_threshold_bits: None,
                batch_keys: None,
                max_write_bytes_per_sec: None,
                enable_compaction_filter: None,
                compaction_filter_skip_version_check: None,
                num_threads: None,
                auto_compaction: None,
            },
        ) == config,
{
}

} // verus!
