//! The metrics the engine records about itself.

use vstd::prelude::*;

use crate::common_metric_data::{meta_is, CommonMetricData};
use crate::lifetime::Lifetime;
use crate::metric::{MemoryUnit, TimeUnit};
use crate::metric_types::{
    labels_view_of, CounterMetric, DatetimeMetric, LabeledMetric, MemoryDistributionMetric,
    StringMetric, TimingDistributionMetric, UuidMetric,
};

verus! {

/// A registration with one target ping, enabled, with no dynamic label.
fn meta1(identifier: &str, ping: &str, lifetime: Lifetime) -> (m: CommonMetricData)
    ensures
        meta_is(m, identifier@, seq![ping@], lifetime, false),
{
    let m = CommonMetricData {
        identifier: identifier.to_owned(),
        send_in_pings: vec![ping.to_owned()],
        lifetime,
        disabled: false,
        dynamic_label: None,
    };
    proof {
        assert(m.send_in_pings@.len() == 1);
        assert(m.send_in_pings@[0]@ == ping@);
    }
    m
}

/// A registration with two target pings, enabled, with no dynamic label.
fn meta2(identifier: &str, ping_a: &str, ping_b: &str, lifetime: Lifetime) -> (m: CommonMetricData)
    ensures
        meta_is(m, identifier@, seq![ping_a@, ping_b@], lifetime, false),
{
    let m = CommonMetricData {
        identifier: identifier.to_owned(),
        send_in_pings: vec![ping_a.to_owned(), ping_b.to_owned()],
        lifetime,
        disabled: false,
        dynamic_label: None,
    };
    proof {
        assert(m.send_in_pings@.len() == 2);
        assert(m.send_in_pings@[0]@ == ping_a@);
        assert(m.send_in_pings@[1]@ == ping_b@);
    }
    m
}

/// Identity and first-run facts about this client.
#[derive(Debug)]
pub struct CoreMetrics {
    /// The client's random identifier.
    pub client_id: UuidMetric,
    /// When this client first ran.
    pub first_run_date: DatetimeMetric,
    /// The operating system the client runs on.
    pub os: StringMetric,
}

/// Counts and timings the engine keeps about its own behaviour.
#[derive(Debug)]
pub struct AdditionalMetrics {
    /// The number of times we encountered an IO error
    /// when writing a pending ping to disk.
    pub io_errors: CounterMetric,

    /// A count of the pings submitted, by ping type.
    pub pings_submitted: LabeledMetric<CounterMetric>,

    /// Time waited for the uploader at shutdown.
    pub shutdown_wait: TimingDistributionMetric,

    /// Time waited for the dispatcher to unblock during shutdown.
    pub shutdown_dispatcher_wait: TimingDistributionMetric,

    /// An experimentation identifier derived and provided by the application
    /// for the purpose of experimentation enrollment.
    pub experimentation_id: StringMetric,
}

impl CoreMetrics {
    /// Build the core metrics with their registered metadata.
    pub fn new() -> (r: CoreMetrics)
        ensures
            meta_is(
                r.client_id.meta(),
                "client_id"@,
                seq!["glean_client_info"@],
                Lifetime::User,
                false,
            ),
            meta_is(
                r.first_run_date.meta(),
                "first_run_date"@,
                seq!["glean_client_info"@],
                Lifetime::User,
                false,
            ),
            r.first_run_date.time_unit() == TimeUnit::Day,
            meta_is(
                r.os.meta(),
                "os"@,
                seq!["glean_client_info"@],
                Lifetime::Application,
                false,
            ),
    {
        CoreMetrics {
            client_id: UuidMetric::new(meta1("client_id", "glean_client_info", Lifetime::User)),
            first_run_date: DatetimeMetric::new(
                meta1("first_run_date", "glean_client_info", Lifetime::User),
                TimeUnit::Day,
            ),
            os: StringMetric::new(meta1("os", "glean_client_info", Lifetime::Application)),
        }
    }
}

impl AdditionalMetrics {
    /// Build the engine's own bookkeeping metrics.
    pub fn new() -> (r: AdditionalMetrics)
        ensures
            meta_is(
                r.io_errors.meta(),
                "glean.error.io"@,
                seq!["metrics"@],
                Lifetime::Ping,
                false,
            ),
            meta_is(
                r.pings_submitted.submetric_meta(),
                "glean.validation.pings_submitted"@,
                seq!["metrics"@, "baseline"@],
                Lifetime::Ping,
                false,
            ),
            r.pings_submitted.labels_view() is None,
            meta_is(
                r.shutdown_wait.meta(),
                "glean.validation.shutdown_wait"@,
                seq!["metrics"@],
                Lifetime::Ping,
                false,
            ),
            r.shutdown_wait.time_unit() == TimeUnit::Millisecond,
            meta_is(
                r.shutdown_dispatcher_wait.meta(),
                "glean.validation.shutdown_dispatcher_wait"@,
                seq!["metrics"@],
                Lifetime::Ping,
                false,
            ),
            r.shutdown_dispatcher_wait.time_unit() == TimeUnit::Millisecond,
            meta_is(
                r.experimentation_id.meta(),
                "glean.client.annotation.experimentation_id"@,
                seq!["all-pings"@],
                Lifetime::Application,
                false,
            ),
    {
        AdditionalMetrics {
            io_errors: CounterMetric::new(meta1("glean.error.io", "metrics", Lifetime::Ping)),
            pings_submitted: LabeledMetric::<CounterMetric>::new(
                meta2("glean.validation.pings_submitted", "metrics", "baseline", Lifetime::Ping),
                None,
            ),
            shutdown_wait: TimingDistributionMetric::new(
                meta1("glean.validation.shutdown_wait", "metrics", Lifetime::Ping),
                TimeUnit::Millisecond,
            ),
            shutdown_dispatcher_wait: TimingDistributionMetric::new(
                meta1("glean.validation.shutdown_dispatcher_wait", "metrics", Lifetime::Ping),
                TimeUnit::Millisecond,
            ),
            experimentation_id: StringMetric::new(
                meta1(
                    "glean.client.annotation.experimentation_id",
                    "all-pings",
                    Lifetime::Application,
                ),
            ),
        }
    }
}

/// Counts and sizes the upload pipeline records about itself.
#[derive(Debug)]
pub struct UploadMetrics {
    /// Ping upload failures, by failure kind.
    pub ping_upload_failure: LabeledMetric<CounterMetric>,
    /// Sizes of pings discarded for exceeding the size limit.
    pub discarded_exceeding_pings_size: MemoryDistributionMetric,
    /// Size of the pending-pings directory.
    pub pending_pings_directory_size: MemoryDistributionMetric,
    /// Pings deleted after the pending-pings quota was hit.
    pub deleted_pings_after_quota_hit: CounterMetric,
    /// The number of pending pings.
    pub pending_pings: CounterMetric,
    /// Time to send a ping successfully.
    pub send_success: TimingDistributionMetric,
    /// Time spent on failed send attempts.
    pub send_failure: TimingDistributionMetric,
    /// Pings dropped while in flight.
    pub in_flight_pings_dropped: CounterMetric,
    /// Upload responses seen without a matching send id.
    pub missing_send_ids: CounterMetric,
}

impl UploadMetrics {
    /// Build the upload pipeline's bookkeeping metrics.
    pub fn new() -> (r: UploadMetrics)
        ensures
            meta_is(
                r.ping_upload_failure.submetric_meta(),
                "glean.upload.ping_upload_failure"@,
                seq!["metrics"@],
                Lifetime::Ping,
                false,
            ),
            r.ping_upload_failure.labels_view() == Some(
                seq![
                    "status_code_4xx"@,
                    "status_code_5xx"@,
                    "status_code_unknown"@,
                    "unrecoverable"@,
                    "recoverable"@,
                ],
            ),
            meta_is(
                r.discarded_exceeding_pings_size.meta(),
                "glean.upload.discarded_exceeding_ping_size"@,
                seq!["metrics"@],
                Lifetime::Ping,
                false,
            ),
            r.discarded_exceeding_pings_size.memory_unit() == MemoryUnit::Kilobyte,
            meta_is(
                r.pending_pings_directory_size.meta(),
                "glean.upload.pending_pings_directory_size"@,
                seq!["metrics"@],
                Lifetime::Ping,
                false,
            ),
            r.pending_pings_directory_size.memory_unit() == MemoryUnit::Kilobyte,
            meta_is(
                r.deleted_pings_after_quota_hit.meta(),
                "glean.upload.deleted_pings_after_quota_hit"@,
                seq!["metrics"@],
                Lifetime::Ping,
                false,
            ),
            meta_is(
                r.pending_pings.meta(),
                "glean.upload.pending_pings"@,
                seq!["metrics"@],
                Lifetime::Ping,
                false,
            ),
            meta_is(
                r.send_success.meta(),
                "glean.upload.send_success"@,
                seq!["metrics"@],
                Lifetime::Ping,
                false,
            ),
            r.send_success.time_unit() == TimeUnit::Millisecond,
            meta_is(
                r.send_failure.meta(),
                "glean.upload.send_failure"@,
                seq!["metrics"@],
                Lifetime::Ping,
                false,
            ),
            r.send_failure.time_unit() == TimeUnit::Millisecond,
            meta_is(
                r.in_flight_pings_dropped.meta(),
                "glean.upload.in_flight_pings_dropped"@,
                seq!["metrics"@],
                Lifetime::Ping,
                false,
            ),
            meta_is(
                r.missing_send_ids.meta(),
                "glean.upload.missing_send_ids"@,
                seq!["metrics"@],
                Lifetime::Ping,
                false,
            ),
    {
        let failure_labels: Vec<String> = vec![
            "status_code_4xx".to_owned(),
            "status_code_5xx".to_owned(),
            "status_code_unknown".to_owned(),
            "unrecoverable".to_owned(),
            "recoverable".to_owned(),
        ];
        proof {
            assert(failure_labels@.map_values(|s: String| s@) =~= seq![
                "status_code_4xx"@,
                "status_code_5xx"@,
                "status_code_unknown"@,
                "unrecoverable"@,
                "recoverable"@,
            ]);
        }
        UploadMetrics {
            ping_upload_failure: LabeledMetric::<CounterMetric>::new(
                meta1("glean.upload.ping_upload_failure", "metrics", Lifetime::Ping),
                Some(failure_labels),
            ),
            discarded_exceeding_pings_size: MemoryDistributionMetric::new(
                meta1("glean.upload.discarded_exceeding_ping_size", "metrics", Lifetime::Ping),
                MemoryUnit::Kilobyte,
            ),
            pending_pings_directory_size: MemoryDistributionMetric::new(
                meta1("glean.upload.pending_pings_directory_size", "metrics", Lifetime::Ping),
                MemoryUnit::Kilobyte,
            ),
            deleted_pings_after_quota_hit: CounterMetric::new(
                meta1("glean.upload.deleted_pings_after_quota_hit", "metrics", Lifetime::Ping),
            ),
            pending_pings: CounterMetric::new(
                meta1("glean.upload.pending_pings", "metrics", Lifetime::Ping),
            ),
            send_success: TimingDistributionMetric::new(
                meta1("glean.upload.send_success", "metrics", Lifetime::Ping),
                TimeUnit::Millisecond,
            ),
            send_failure: TimingDistributionMetric::new(
                meta1("glean.upload.send_failure", "metrics", Lifetime::Ping),
                TimeUnit::Millisecond,
            ),
            in_flight_pings_dropped: CounterMetric::new(
                meta1("glean.upload.in_flight_pings_dropped", "metrics", Lifetime::Ping),
            ),
            missing_send_ids: CounterMetric::new(
                meta1("glean.upload.missing_send_ids", "metrics", Lifetime::Ping),
            ),
        }
    }
}

/// The engine's facts about its own database.
#[derive(Debug)]
pub struct DatabaseMetrics {
    /// The database file's size.
    pub size: MemoryDistributionMetric,
}

impl DatabaseMetrics {
    /// Build the database's bookkeeping metrics.
    pub fn new() -> (r: DatabaseMetrics)
        ensures
            meta_is(
                r.size.meta(),
                "glean.database.size"@,
                seq!["metrics"@],
                Lifetime::Ping,
                false,
            ),
            r.size.memory_unit() == MemoryUnit::Byte,
    {
        DatabaseMetrics {
            size: MemoryDistributionMetric::new(
                meta1("glean.database.size", "metrics", Lifetime::Ping),
                MemoryUnit::Byte,
            ),
        }
    }
}

} // verus!
