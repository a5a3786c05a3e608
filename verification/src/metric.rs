//! The recordable metric value union and its mathematical model.
//!
//! A [`Metric`] is the tagged union of every value kind the storage engine
//! can hold. Values are stored in binary form (see [`crate::codec`]); the
//! variant tag always travels with the payload so that stored blobs
//! round-trip through encode/decode without loss.

use vstd::prelude::*;

verus! {

/// Time resolution of timespan and datetime metrics.
#[derive(Copy, Clone, Debug, PartialEq, Eq, Structural)]
pub enum TimeUnit {
    /// Nanosecond resolution.
    Nanosecond,
    /// Microsecond resolution.
    Microsecond,
    /// Millisecond resolution.
    Millisecond,
    /// Second resolution.
    Second,
    /// Minute resolution.
    Minute,
    /// Hour resolution.
    Hour,
    /// Day resolution.
    Day,
}

/// Memory resolution of memory-distribution metrics.
#[derive(Copy, Clone, Debug, PartialEq, Eq, Structural)]
pub enum MemoryUnit {
    /// Bytes.
    Byte,
    /// Kilobytes, 2^10 bytes.
    Kilobyte,
    /// Megabytes, 2^20 bytes.
    Megabyte,
    /// Gigabytes, 2^30 bytes.
    Gigabyte,
}

/// A calendar date and time with a UTC offset, held as plain fields.
///
/// Outside date-time types do not enter the storage engine; what the engine
/// stores and compares is exactly these numbers.
#[derive(Copy, Clone, Debug, PartialEq, Eq, Structural)]
pub struct DatetimeValue {
    /// Calendar year.
    pub year: i32,
    /// Month, 1 to 12.
    pub month: u8,
    /// Day of month, 1 to 31.
    pub day: u8,
    /// Hour of day, 0 to 23.
    pub hour: u8,
    /// Minute, 0 to 59.
    pub minute: u8,
    /// Second, 0 to 60.
    pub second: u8,
    /// Sub-second nanoseconds.
    pub nanosecond: u32,
    /// Offset from UTC in seconds, positive east.
    pub offset_seconds: i32,
}

/// The recorded data for a single event.
#[derive(Debug, Clone, PartialEq, Eq)]
pub struct RecordedEventData {
    /// The timestamp of when the event was recorded.
    ///
    /// This allows to order events from a single process run.
    pub timestamp: u64,

    /// The event's category.
    ///
    /// This is defined by users in the metrics file.
    pub category: String,

    /// The event's name.
    ///
    /// This is defined by users in the metrics file.
    pub name: String,

    /// A map of all extra data values.
    ///
    /// The set of allowed extra keys is defined by users in the metrics file.
    pub extra: Option<String>,
}

/// One label together with the value recorded under it.
#[derive(Debug, PartialEq, Eq)]
pub struct LabeledEntry {
    /// The label, as written by the recording call site.
    pub label: String,
    /// The value recorded under this label.
    pub value: Metric,
}

/// The closed union of recordable metric values.
#[derive(Debug, PartialEq, Eq)]
pub enum Metric {
    /// A boolean metric.
    Boolean(bool),
    /// A counter metric.
    Counter(i32),
    /// A string metric.
    String(String),
    /// A UUID metric, held in textual form.
    Uuid(String),
    /// A datetime metric, truncated to the given resolution on export.
    Datetime(DatetimeValue, TimeUnit),
    /// A timespan metric: an elapsed duration in nanoseconds and the
    /// resolution it is reported in.
    Timespan(u64, TimeUnit),
    /// A bucketed histogram: pairs of bucket start and sample count.
    Distribution(Vec<(u64, u64)>),
    /// A labeled metric: nested values keyed by label.
    LabeledSubmetric(Vec<LabeledEntry>),
    /// An event metric: the ordered list of recorded events.
    Event(Vec<RecordedEventData>),
    /// A JWE metric, held in compact serialized form.
    Jwe(String),
    /// A text metric.
    Text(String),
    /// An object metric, held in serialized form.
    Object(String),
}

/// The mathematical value of a [`RecordedEventData`].
pub struct EventView {
    /// Model of [`RecordedEventData::timestamp`].
    pub timestamp: u64,
    /// Model of [`RecordedEventData::category`].
    pub category: Seq<char>,
    /// Model of [`RecordedEventData::name`].
    pub name: Seq<char>,
    /// Model of [`RecordedEventData::extra`].
    pub extra: Option<Seq<char>>,
}

/// The mathematical value of a [`LabeledEntry`].
pub struct LabeledEntryView {
    /// Model of [`LabeledEntry::label`].
    pub label: Seq<char>,
    /// Model of [`LabeledEntry::value`].
    pub value: MetricView,
}

/// The mathematical value of a [`Metric`]: the same union over
/// sequences instead of heap-allocated strings and vectors.
///
/// Contracts about stored metric values are stated over this type.
pub enum MetricView {
    /// Model of [`Metric::Boolean`].
    Boolean(bool),
    /// Model of [`Metric::Counter`].
    Counter(i32),
    /// Model of [`Metric::String`].
    String(Seq<char>),
    /// Model of [`Metric::Uuid`].
    Uuid(Seq<char>),
    /// Model of [`Metric::Datetime`].
    Datetime(DatetimeValue, TimeUnit),
    /// Model of [`Metric::Timespan`].
    Timespan(u64, TimeUnit),
    /// Model of [`Metric::Distribution`].
    Distribution(Seq<(u64, u64)>),
    /// Model of [`Metric::LabeledSubmetric`].
    LabeledSubmetric(Seq<LabeledEntryView>),
    /// Model of [`Metric::Event`].
    Event(Seq<EventView>),
    /// Model of [`Metric::Jwe`].
    Jwe(Seq<char>),
    /// Model of [`Metric::Text`].
    Text(Seq<char>),
    /// Model of [`Metric::Object`].
    Object(Seq<char>),
}

impl View for RecordedEventData {
    type V = EventView;

    open spec fn view(&self) -> EventView {
        EventView {
            timestamp: self.timestamp,
            category: self.category@,
            name: self.name@,
            extra: match self.extra {
                Some(s) => Some(s@),
                None => None,
            },
        }
    }
}

/// The model of a sequence of events.
pub open spec fn events_view(es: Seq<RecordedEventData>) -> Seq<EventView> {
    es.map_values(|e: RecordedEventData| e@)
}

/// The model of a sequence of labeled entries.
pub open spec fn entries_view(es: Seq<LabeledEntry>) -> Seq<LabeledEntryView>
    decreases es,
{
    if es.len() == 0 {
        Seq::empty()
    } else {
        seq![es[0]@] + entries_view(es.drop_first())
    }
}

impl View for LabeledEntry {
    type V = LabeledEntryView;

    open spec fn view(&self) -> LabeledEntryView
        decreases *self,
    {
        LabeledEntryView { label: self.label@, value: self.value@ }
    }
}

impl View for Metric {
    type V = MetricView;

    open spec fn view(&self) -> MetricView
        decreases *self,
    {
        match *self {
            Metric::Boolean(b) => MetricView::Boolean(b),
            Metric::Counter(c) => MetricView::Counter(c),
            Metric::String(ref s) => MetricView::String(s@),
            Metric::Uuid(ref s) => MetricView::Uuid(s@),
            Metric::Datetime(d, u) => MetricView::Datetime(d, u),
            Metric::Timespan(n, u) => MetricView::Timespan(n, u),
            Metric::Distribution(ref b) => MetricView::Distribution(b@),
            Metric::LabeledSubmetric(ref es) => MetricView::LabeledSubmetric(entries_view(es@)),
            Metric::Event(ref es) => MetricView::Event(events_view(es@)),
            Metric::Jwe(ref s) => MetricView::Jwe(s@),
            Metric::Text(ref s) => MetricView::Text(s@),
            Metric::Object(ref s) => MetricView::Object(s@),
        }
    }
}

/// Every labeled entry's model stands at its own index.
pub proof fn lemma_entries_view_index(es: Seq<LabeledEntry>, i: int)
    requires
        0 <= i < es.len(),
    ensures
        entries_view(es).len() == es.len(),
        entries_view(es)[i] == es[i]@,
    decreases es.len(),
{
    lemma_entries_view_len(es);
    if i > 0 {
        lemma_entries_view_index(es.drop_first(), i - 1);
        assert(entries_view(es) == seq![es[0]@] + entries_view(es.drop_first()));
        assert(entries_view(es)[i] == entries_view(es.drop_first())[i - 1]);
    } else {
        assert(entries_view(es) == seq![es[0]@] + entries_view(es.drop_first()));
        assert(entries_view(es)[0] == es[0]@);
    }
}

/// The model of a sequence of labeled entries has the same length.
pub proof fn lemma_entries_view_len(es: Seq<LabeledEntry>)
    ensures
        entries_view(es).len() == es.len(),
    decreases es.len(),
{
    if es.len() > 0 {
        lemma_entries_view_len(es.drop_first());
        assert(entries_view(es) == seq![es[0]@] + entries_view(es.drop_first()));
    }
}

} // verus!
