//! Local metric storage engine: typed metric values with a binary encoding,
//! a lifetime-scoped key-value store with a delayed ping-lifetime cache,
//! and the policy pieces around it (legacy migration, dispatch queue state).

use vstd::prelude::*;

mod codec;
mod common_metric_data;
mod database;
mod dispatcher;
mod glean;
mod internal_metrics;
mod keys;
mod laws;
mod lifetime;
mod metric;
mod metric_types;
mod strutil;

pub use codec::{decode_metric, decode_spec, enc_metric, encode_metric, lemma_roundtrip, wf_metric};
pub use common_metric_data::{meta_is, CommonMetricData};
pub use database::{
    applied_at, clear_sel, is_target, lemma_merged_overlay, lemma_no_delayed_cache, loaded_map,
    map_has, ping_views, pings_unique, prefix_sel, prev_matches, same_at, Database, DatabaseError,
    MetricKey, Row,
};
pub use dispatcher::{DispatchError, DispatchState, FlushState, LaunchAction};
pub use glean::Glean;
pub use internal_metrics::{AdditionalMetrics, CoreMetrics, DatabaseMetrics, UploadMetrics};
pub use metric_types::{
    counter_add_spec, counter_added_at, labels_view_of, AllowLabeled, CounterMetric,
    DatetimeMetric, EventMetric, LabeledMetric, MemoryDistributionMetric, StringMetric,
    TimespanMetric, TimingDistributionMetric, UuidMetric,
};
pub use laws::{
    counter_increment, increment_at, increment_step, lemma_applied_is_increment,
    lemma_atomic_transform, lemma_delayed_cache_merge, lemma_increment_step_at,
    lemma_lifetime_isolation, lemma_record_with_increments, lemma_upsert_idempotent,
    opt_metric_view,
};
pub use keys::{get_storage_key, is_first_hash, legacy_split, split_storage_key, storage_key_spec};
pub use lifetime::Lifetime;
pub use metric::{
    DatetimeValue, EventView, LabeledEntry, LabeledEntryView, MemoryUnit, Metric, MetricView,
    RecordedEventData, TimeUnit,
};

verus! {

/// The configuration the engine is initialized with.
#[derive(Debug)]
pub struct Configuration {
    /// Whether upload should be enabled.
    pub upload_enabled: bool,
    /// Path to a directory to store all data in.
    pub data_dir: String,
    /// The application ID (will be sanitized during initialization).
    pub application_id: String,
    /// The name of the programming language used by the binding creating this instance of Glean.
    pub language_binding_name: String,
    /// The maximum number of events to store before sending a ping containing events.
    pub max_events: Option<u32>,
    /// Whether Glean should delay persistence of data from metrics with ping lifetime.
    pub delay_ping_lifetime_io: bool,
    /// The application's build identifier. If this is different from the one provided for a previous init,
    /// and use_core_mps is `true`, we will trigger a "metrics" ping.
    pub app_build: String,
    /// Whether Glean should schedule "metrics" pings.
    pub use_core_mps: bool,
}

/// Set the engine up from a configuration.
///
/// The bindings-facing entry point is not wired up to a running engine
/// here and reports that initialization did not take place.
pub fn initialize(_cfg: Configuration) -> (r: bool)
    ensures
        r == false,
{
    false
}

} // verus!
