//! The per-metric-type recording facades.
//!
//! Each facade holds the metadata a metric was registered with and turns
//! typed recording calls into writes of the matching [`Metric`] value
//! against the store, gated on upload being enabled.

use vstd::prelude::*;

use crate::codec::enc_metric;
use crate::common_metric_data::CommonMetricData;
use crate::database::{
    is_target, map_has, ping_views, pings_unique, prev_matches, same_at, Database, MetricKey,
};
use crate::glean::Glean;
use crate::laws::opt_metric_view;
use crate::lifetime::Lifetime;
use crate::metric::{Metric, MetricView, RecordedEventData, TimeUnit, MemoryUnit};

verus! {

/// Relies on `time::precise_time_ns`: nanoseconds of a monotonic clock.
/// Nothing is assumed of the returned value.
#[verifier::external_body]
fn now_ns() -> u64 {
    time::precise_time_ns()
}

/// This implements the developer facing API for recording string metrics.
#[derive(Debug)]
pub struct StringMetric {
    meta: CommonMetricData,
}

impl StringMetric {
    /// The metadata this metric was registered with.
    pub closed spec fn meta(self) -> CommonMetricData {
        self.meta
    }

    /// The public constructor used by automatically generated metrics.
    pub fn new(meta: CommonMetricData) -> (r: StringMetric)
        ensures
            r.meta() == meta,
    {
        StringMetric { meta }
    }

    /// Internal only, synchronous API for setting a string value.
    pub fn set_sync(&self, glean: &Glean, db: &mut Database, value: String)
        requires
            old(db).wf(),
        ensures
            final(db).wf(),
            final(db).delayed() == old(db).delayed(),
            !glean.upload_enabled() ==> {
                &&& final(db).store_map() == old(db).store_map()
                &&& final(db).cache_map() == old(db).cache_map()
            },
            glean.upload_enabled() ==> forall|k: MetricKey|
                !(#[trigger] is_target(
                    k,
                    self.meta().lifetime,
                    ping_views(self.meta().send_in_pings@),
                    self.meta().identifier_spec(),
                )) ==> same_at(final(db).store_map(), old(db).store_map(), k) && same_at(
                    final(db).cache_map(),
                    old(db).cache_map(),
                    k,
                ),
            glean.upload_enabled() ==> forall|k: MetricKey|
                #[trigger] is_target(
                    k,
                    self.meta().lifetime,
                    ping_views(self.meta().send_in_pings@),
                    self.meta().identifier_spec(),
                ) ==> map_has(
                    final(db).merged_map(),
                    k,
                    crate::codec::enc_metric(MetricView::String(value@)),
                ) || same_at(final(db).merged_map(), old(db).merged_map(), k),
            (glean.upload_enabled() && self.meta().lifetime == Lifetime::Ping && old(
                db,
            ).delayed()) ==> forall|k: MetricKey|
                #[trigger] is_target(
                    k,
                    self.meta().lifetime,
                    ping_views(self.meta().send_in_pings@),
                    self.meta().identifier_spec(),
                ) ==> map_has(
                    final(db).merged_map(),
                    k,
                    crate::codec::enc_metric(MetricView::String(value@)),
                ),
    {
        db.record(glean, &self.meta, &Metric::String(value));
    }

    /// Internal test API: the value stored for this metric, which the
    /// bindings facade never reports directly.
    pub fn test_get_value(&self, _ping_name: Option<&str>) -> (r: Option<String>)
        ensures
            r is None,
    {
        None
    }

    /// Internal test API: the number of errors recorded for this metric,
    /// which the bindings facade never reports directly.
    pub fn test_get_num_recorded_errors(&self, _ping_name: Option<&str>) -> (r: i32)
        ensures
            r == 0,
    {
        0
    }
}

/// Timespan metric: measures an elapsed span of time.
#[derive(Debug)]
pub struct TimespanMetric {
    meta: CommonMetricData,
    time_unit: TimeUnit,
    start_time: Option<u64>,
}

impl TimespanMetric {
    /// The metadata this metric was registered with.
    pub closed spec fn meta(self) -> CommonMetricData {
        self.meta
    }

    /// The resolution this metric reports in.
    pub closed spec fn time_unit(self) -> TimeUnit {
        self.time_unit
    }

    /// The pending start timestamp, if a measurement is running.
    pub closed spec fn start_time(self) -> Option<u64> {
        self.start_time
    }

    /// The public constructor used by automatically generated metrics.
    pub fn new(meta: CommonMetricData, time_unit: TimeUnit) -> (r: TimespanMetric)
        ensures
            r.meta() == meta,
            r.time_unit() == time_unit,
            r.start_time() is None,
    {
        TimespanMetric { meta, time_unit, start_time: None }
    }

    /// Begin a measurement at the given timestamp. A measurement that is
    /// already running is left untouched.
    pub fn set_start(&mut self, start_time: u64)
        ensures
            final(self).meta() == old(self).meta(),
            final(self).time_unit() == old(self).time_unit(),
            old(self).start_time() is None ==> final(self).start_time() == Some(start_time),
            old(self).start_time() is Some ==> final(self).start_time() == old(self).start_time(),
    {
        if self.start_time.is_none() {
            self.start_time = Some(start_time);
        }
    }

    /// Begin a measurement now.
    pub fn start(&mut self)
        ensures
            final(self).meta() == old(self).meta(),
            final(self).time_unit() == old(self).time_unit(),
            old(self).start_time() is Some ==> final(self).start_time() == old(self).start_time(),
            final(self).start_time() is Some,
    {
        let t = now_ns();
        self.set_start(t);
    }

    /// End the measurement at the given timestamp and record the elapsed
    /// nanoseconds. Without a running measurement nothing is recorded.
    pub fn set_stop(&mut self, glean: &Glean, db: &mut Database, stop_time: u64)
        requires
            old(db).wf(),
        ensures
            final(db).wf(),
            final(db).delayed() == old(db).delayed(),
            final(self).meta() == old(self).meta(),
            final(self).time_unit() == old(self).time_unit(),
            final(self).start_time() is None,
            old(self).start_time() is None ==> {
                &&& final(db).store_map() == old(db).store_map()
                &&& final(db).cache_map() == old(db).cache_map()
            },
            !glean.upload_enabled() ==> {
                &&& final(db).store_map() == old(db).store_map()
                &&& final(db).cache_map() == old(db).cache_map()
            },
            glean.upload_enabled() ==> (old(self).start_time() matches Some(st) ==> {
                let elapsed: u64 = if stop_time >= st {
                    (stop_time - st) as u64
                } else {
                    0
                };
                forall|k: MetricKey|
                    #[trigger] is_target(
                        k,
                        old(self).meta().lifetime,
                        ping_views(old(self).meta().send_in_pings@),
                        old(self).meta().identifier_spec(),
                    ) ==> map_has(
                        final(db).merged_map(),
                        k,
                        crate::codec::enc_metric(
                            MetricView::Timespan(elapsed, old(self).time_unit()),
                        ),
                    ) || same_at(final(db).merged_map(), old(db).merged_map(), k)
            }),
    {
        match self.start_time {
            Some(st) => {
                let elapsed: u64 = if stop_time >= st {
                    stop_time - st
                } else {
                    0
                };
                self.start_time = None;
                db.record(glean, &self.meta, &Metric::Timespan(elapsed, self.time_unit));
            },
            None => {},
        }
    }

    /// End the measurement now and record the elapsed time.
    pub fn stop(&mut self, glean: &Glean, db: &mut Database)
        requires
            old(db).wf(),
        ensures
            final(db).wf(),
            final(db).delayed() == old(db).delayed(),
            final(self).meta() == old(self).meta(),
            final(self).time_unit() == old(self).time_unit(),
            final(self).start_time() is None,
            old(self).start_time() is None ==> {
                &&& final(db).store_map() == old(db).store_map()
                &&& final(db).cache_map() == old(db).cache_map()
            },
            !glean.upload_enabled() ==> {
                &&& final(db).store_map() == old(db).store_map()
                &&& final(db).cache_map() == old(db).cache_map()
            },
    {
        let t = now_ns();
        self.set_stop(glean, db, t);
    }

    /// Abandon a running measurement without recording anything.
    pub fn cancel(&mut self)
        ensures
            final(self).meta() == old(self).meta(),
            final(self).time_unit() == old(self).time_unit(),
            final(self).start_time() is None,
    {
        self.start_time = None;
    }

    /// Internal test API: the value stored for this metric, which the
    /// bindings facade never reports directly.
    pub fn test_get_value(&self, _ping_name: Option<&str>) -> (r: Option<u64>)
        ensures
            r is None,
    {
        None
    }

    /// Internal test API: the number of errors recorded for this metric,
    /// which the bindings facade never reports directly.
    pub fn test_get_num_recorded_errors(&self, _ping_name: Option<&str>) -> (r: i32)
        ensures
            r == 0,
    {
        0
    }
}

/// The counter value an add of `amount` leaves, clamped at the counter's
/// bounds: the stored counter plus `amount`, or `amount` alone when
/// nothing (or something other than a counter) is stored.
pub open spec fn counter_add_spec(prev: Option<MetricView>, amount: i32) -> MetricView {
    match prev {
        Some(MetricView::Counter(c)) => if c + amount > i32::MAX {
            MetricView::Counter(i32::MAX)
        } else if c + amount < i32::MIN {
            MetricView::Counter(i32::MIN)
        } else {
            MetricView::Counter((c + amount) as i32)
        },
        _ => MetricView::Counter(amount),
    }
}

/// An add of `amount` happened at `k`: some input that reads back `pre`'s
/// stored value there explains the counter `m` holds at `k`.
pub open spec fn counter_added_at(
    pre: Database,
    m: Map<MetricKey, Seq<u8>>,
    amount: i32,
    k: MetricKey,
) -> bool {
    exists|prev: Option<Metric>|
        #![trigger prev_matches(pre, k, prev)]
        prev_matches(pre, k, prev) && map_has(
            m,
            k,
            enc_metric(counter_add_spec(opt_metric_view(prev), amount)),
        )
}

/// Counter metric: a value that is added to.
#[derive(Debug)]
pub struct CounterMetric {
    meta: CommonMetricData,
}

impl CounterMetric {
    /// The metadata this metric was registered with.
    pub closed spec fn meta(self) -> CommonMetricData {
        self.meta
    }

    /// The public constructor used by automatically generated metrics.
    pub fn new(meta: CommonMetricData) -> (r: CounterMetric)
        ensures
            r.meta() == meta,
    {
        CounterMetric { meta }
    }

    /// Internal only, synchronous API for adding to a counter, saturating
    /// at the counter's bounds.
    pub fn add_sync(&self, glean: &Glean, db: &mut Database, amount: i32)
        requires
            old(db).wf(),
        ensures
            final(db).wf(),
            final(db).delayed() == old(db).delayed(),
            !glean.upload_enabled() ==> {
                &&& final(db).store_map() == old(db).store_map()
                &&& final(db).cache_map() == old(db).cache_map()
            },
            glean.upload_enabled() ==> forall|k: MetricKey|
                !(#[trigger] is_target(
                    k,
                    self.meta().lifetime,
                    ping_views(self.meta().send_in_pings@),
                    self.meta().identifier_spec(),
                )) ==> same_at(final(db).store_map(), old(db).store_map(), k) && same_at(
                    final(db).cache_map(),
                    old(db).cache_map(),
                    k,
                ),
            (glean.upload_enabled() && pings_unique(ping_views(self.meta().send_in_pings@)))
                ==> forall|j: int|
                #![trigger ping_views(self.meta().send_in_pings@)[j]]
                0 <= j < ping_views(self.meta().send_in_pings@).len() ==> counter_added_at(
                    *old(db),
                    final(db).merged_map(),
                    amount,
                    (
                        self.meta().lifetime,
                        ping_views(self.meta().send_in_pings@)[j],
                        self.meta().identifier_spec(),
                    ),
                ) || same_at(
                    final(db).merged_map(),
                    old(db).merged_map(),
                    (
                        self.meta().lifetime,
                        ping_views(self.meta().send_in_pings@)[j],
                        self.meta().identifier_spec(),
                    ),
                ),
            (glean.upload_enabled() && pings_unique(ping_views(self.meta().send_in_pings@))
                && self.meta().lifetime == Lifetime::Ping && old(db).delayed()) ==> forall|j: int|
                #![trigger ping_views(self.meta().send_in_pings@)[j]]
                0 <= j < ping_views(self.meta().send_in_pings@).len() ==> counter_added_at(
                    *old(db),
                    final(db).merged_map(),
                    amount,
                    (
                        self.meta().lifetime,
                        ping_views(self.meta().send_in_pings@)[j],
                        self.meta().identifier_spec(),
                    ),
                ),
    {
        let transform = |prev: Option<Metric>| -> (out: Metric)
            ensures
                out@ == counter_add_spec(opt_metric_view(prev), amount),
            {
                match prev {
                    Some(Metric::Counter(c)) => {
                        let wide: i64 = c as i64 + amount as i64;
                        let clamped: i32 = if wide > i32::MAX as i64 {
                            i32::MAX
                        } else if wide < i32::MIN as i64 {
                            i32::MIN
                        } else {
                            wide as i32
                        };
                        Metric::Counter(clamped)
                    },
                    _ => Metric::Counter(amount),
                }
            };
        db.record_with(glean, &self.meta, transform);
        proof {
            let pings = ping_views(self.meta().send_in_pings@);
            let id = self.meta().identifier_spec();
            if glean.upload_enabled() && pings_unique(pings) {
                assert forall|j: int|
                    #![trigger pings[j]]
                    0 <= j < pings.len() && crate::database::applied_at(
                        *old(db),
                        db.merged_map(),
                        transform,
                        (self.meta().lifetime, pings[j], id),
                    ) implies counter_added_at(
                    *old(db),
                    db.merged_map(),
                    amount,
                    (self.meta().lifetime, pings[j], id),
                ) by {
                    let kj: MetricKey = (self.meta().lifetime, pings[j], id);
                    let (prev, out) = choose|prev: Option<Metric>, out: Metric|
                        prev_matches(*old(db), kj, prev) && #[trigger] transform.ensures(
                            (prev,),
                            out,
                        ) && map_has(db.merged_map(), kj, enc_metric(out@));
                    assert(out@ == counter_add_spec(opt_metric_view(prev), amount));
                    assert(prev_matches(*old(db), kj, prev) && map_has(
                        db.merged_map(),
                        kj,
                        enc_metric(counter_add_spec(opt_metric_view(prev), amount)),
                    ));
                }
            }
        }
    }
}

/// UUID metric: an identifier held in textual form.
#[derive(Debug)]
pub struct UuidMetric {
    meta: CommonMetricData,
}

impl UuidMetric {
    /// The metadata this metric was registered with.
    pub closed spec fn meta(self) -> CommonMetricData {
        self.meta
    }

    /// The public constructor used by automatically generated metrics.
    pub fn new(meta: CommonMetricData) -> (r: UuidMetric)
        ensures
            r.meta() == meta,
    {
        UuidMetric { meta }
    }
}

/// Datetime metric: a point in time with a UTC offset.
#[derive(Debug)]
pub struct DatetimeMetric {
    meta: CommonMetricData,
    time_unit: TimeUnit,
}

impl DatetimeMetric {
    /// The metadata this metric was registered with.
    pub closed spec fn meta(self) -> CommonMetricData {
        self.meta
    }

    /// The resolution this metric reports in.
    pub closed spec fn time_unit(self) -> TimeUnit {
        self.time_unit
    }

    /// The public constructor used by automatically generated metrics.
    pub fn new(meta: CommonMetricData, time_unit: TimeUnit) -> (r: DatetimeMetric)
        ensures
            r.meta() == meta,
            r.time_unit() == time_unit,
    {
        DatetimeMetric { meta, time_unit }
    }
}

/// Timing distribution metric: a histogram of measured durations.
#[derive(Debug)]
pub struct TimingDistributionMetric {
    meta: CommonMetricData,
    time_unit: TimeUnit,
}

impl TimingDistributionMetric {
    /// The metadata this metric was registered with.
    pub closed spec fn meta(self) -> CommonMetricData {
        self.meta
    }

    /// The resolution this metric reports in.
    pub closed spec fn time_unit(self) -> TimeUnit {
        self.time_unit
    }

    /// The public constructor used by automatically generated metrics.
    pub fn new(meta: CommonMetricData, time_unit: TimeUnit) -> (r: TimingDistributionMetric)
        ensures
            r.meta() == meta,
            r.time_unit() == time_unit,
    {
        TimingDistributionMetric { meta, time_unit }
    }
}

/// Memory distribution metric: a histogram of measured sizes.
#[derive(Debug)]
pub struct MemoryDistributionMetric {
    meta: CommonMetricData,
    memory_unit: MemoryUnit,
}

impl MemoryDistributionMetric {
    /// The metadata this metric was registered with.
    pub closed spec fn meta(self) -> CommonMetricData {
        self.meta
    }

    /// The resolution this metric reports in.
    pub closed spec fn memory_unit(self) -> MemoryUnit {
        self.memory_unit
    }

    /// The public constructor used by automatically generated metrics.
    pub fn new(meta: CommonMetricData, memory_unit: MemoryUnit) -> (r: MemoryDistributionMetric)
        ensures
            r.meta() == meta,
            r.memory_unit() == memory_unit,
    {
        MemoryDistributionMetric { meta, memory_unit }
    }
}

/// A metric type that can stand behind the labels of a labeled metric.
pub trait AllowLabeled: Sized {
    /// The metadata this submetric carries.
    spec fn labeled_meta(self) -> CommonMetricData;

    /// Build the submetric from the labeled metric's metadata.
    fn new_labeled(meta: CommonMetricData) -> (r: Self)
        ensures
            r.labeled_meta() == meta,
    ;
}

impl AllowLabeled for CounterMetric {
    open spec fn labeled_meta(self) -> CommonMetricData {
        self.meta()
    }

    fn new_labeled(meta: CommonMetricData) -> (r: Self) {
        CounterMetric::new(meta)
    }
}

impl AllowLabeled for StringMetric {
    open spec fn labeled_meta(self) -> CommonMetricData {
        self.meta()
    }

    fn new_labeled(meta: CommonMetricData) -> (r: Self) {
        StringMetric::new(meta)
    }
}

/// The label views of an optional label list.
pub open spec fn labels_view_of(labels: Option<Vec<String>>) -> Option<Seq<Seq<char>>> {
    match labels {
        Some(v) => Some(v@.map_values(|s: String| s@)),
        None => None,
    }
}

/// Labeled metric: one submetric per label.
#[derive(Debug)]
pub struct LabeledMetric<T: AllowLabeled + core::fmt::Debug> {
    submetric: T,
    labels: Option<Vec<String>>,
}

impl<T: AllowLabeled + core::fmt::Debug> LabeledMetric<T> {
    /// The metadata the submetric behind the labels carries.
    pub closed spec fn submetric_meta(self) -> CommonMetricData {
        self.submetric.labeled_meta()
    }

    /// The views of the static label set, when the metric declares one.
    pub closed spec fn labels_view(self) -> Option<Seq<Seq<char>>> {
        labels_view_of(self.labels)
    }

    /// The public constructor used by automatically generated metrics.
    /// `labels` is the allowed label set, when the metric declares one.
    pub fn new(meta: CommonMetricData, labels: Option<Vec<String>>) -> (r: LabeledMetric<T>)
        ensures
            r.submetric_meta() == meta,
            r.labels_view() == labels_view_of(labels),
    {
        let submetric = T::new_labeled(meta);
        LabeledMetric { submetric, labels }
    }
}

/// Event metric: an occurrence with a timestamp and optional extra data.
#[derive(Debug)]
pub struct EventMetric {
    meta: CommonMetricData,
}

impl EventMetric {
    /// The metadata this metric was registered with.
    pub closed spec fn meta_spec(self) -> CommonMetricData {
        self.meta
    }

    /// The metadata this metric was registered with.
    pub fn meta(&self) -> (r: &CommonMetricData)
        ensures
            *r == self.meta_spec(),
    {
        &self.meta
    }

    /// A copy of this metric under another name; everything but the
    /// identifier is kept, and this metric itself is untouched.
    pub fn with_name(&self, name: String) -> (r: EventMetric)
        ensures
            r.meta_spec().identifier == name,
            r.meta_spec().send_in_pings@ == self.meta_spec().send_in_pings@,
            r.meta_spec().lifetime == self.meta_spec().lifetime,
            r.meta_spec().disabled == self.meta_spec().disabled,
            r.meta_spec().dynamic_label == self.meta_spec().dynamic_label,
    {
        EventMetric {
            meta: CommonMetricData {
                identifier: name,
                send_in_pings: clone_strings(&self.meta.send_in_pings),
                lifetime: self.meta.lifetime,
                disabled: self.meta.disabled,
                dynamic_label: match &self.meta.dynamic_label {
                    Some(l) => Some(l.clone()),
                    None => None,
                },
            },
        }
    }

    /// A copy of this metric recording under the given label; everything
    /// but the label is kept, and this metric itself is untouched.
    pub fn with_dynamic_label(&self, label: String) -> (r: EventMetric)
        ensures
            r.meta_spec().identifier == self.meta_spec().identifier,
            r.meta_spec().send_in_pings@ == self.meta_spec().send_in_pings@,
            r.meta_spec().lifetime == self.meta_spec().lifetime,
            r.meta_spec().disabled == self.meta_spec().disabled,
            r.meta_spec().dynamic_label == Some(label),
    {
        EventMetric {
            meta: CommonMetricData {
                identifier: self.meta.identifier.clone(),
                send_in_pings: clone_strings(&self.meta.send_in_pings),
                lifetime: self.meta.lifetime,
                disabled: self.meta.disabled,
                dynamic_label: Some(label),
            },
        }
    }

    /// The public constructor used by automatically generated metrics.
    /// The allowed extra keys are accepted but not held by this facade.
    pub fn new(meta: CommonMetricData, _allowed_extra_keys: Vec<String>) -> (r: EventMetric)
        ensures
            r.meta_spec() == meta,
    {
        EventMetric { meta }
    }

    /// Record an event occurrence. The event facade defers the actual
    /// write to the engine's task queue; this entry point only accepts
    /// the call.
    pub fn internal_record(&self, _extra: Option<String>) {
    }

    /// The recorded event data for this metric, which this facade never
    /// reports directly.
    pub(crate) fn get_value(&self, _glean: &Glean, ping_name: Option<&str>) -> (r: Option<
        RecordedEventData,
    >)
        ensures
            r is None,
    {
        let _queried_ping_name: Option<&str> = match ping_name {
            Some(p) => Some(p),
            None => match self.meta.send_in_pings.get(0) {
                Some(first) => Some(first.as_str()),
                None => None,
            },
        };
        None
    }

    /// Internal test API: the recorded event data for this metric.
    pub fn test_get_value(&self, ping_name: Option<String>) -> (r: Option<RecordedEventData>)
        ensures
            r is None,
    {
        let glean = Glean::new(true);
        self.get_value(
            &glean,
            match &ping_name {
                Some(p) => Some(p.as_str()),
                None => None,
            },
        )
    }
}

/// Copy a list of strings.
fn clone_strings(v: &Vec<String>) -> (r: Vec<String>)
    ensures
        r@ == v@,
{
    let mut out: Vec<String> = Vec::new();
    let mut i: usize = 0;
    while i < v.len()
        invariant
            0 <= i <= v@.len(),
            out@.len() == i,
            forall|j: int| 0 <= j < i ==> #[trigger] out@[j] == v@[j],
        decreases v.len() - i,
    {
        out.push(v[i].clone());
        i += 1;
    }
    proof {
        assert(out@ =~= v@);
    }
    out
}

} // verus!
