//! The binary encoding of metric values.
//!
//! Stored blobs are the output of [`encode_metric`]; [`decode_metric`] is its
//! inverse and returns `None` on any byte sequence that is not a well-formed
//! encoding, so corrupt data reads back as "absent" rather than erroring.
//!
//! The format is internal to this crate and fully specified here: an
//! encoding is a one-byte variant tag followed by the payload, with
//! little-endian fixed-width integers and length-prefixed UTF-8 strings.
//! [`decode_spec`] is the mathematical description of decoding, given as a
//! parser over byte sequences; the executable functions are proved to match
//! it exactly, and [`lemma_roundtrip`] states the round-trip law.

use vstd::prelude::*;

use vstd::bytes::{
    lemma_auto_spec_u32_to_from_le_bytes, lemma_auto_spec_u64_to_from_le_bytes,
    spec_u32_to_le_bytes, spec_u32_from_le_bytes, spec_u64_to_le_bytes, spec_u64_from_le_bytes,
    u32_from_le_bytes, u32_to_le_bytes, u64_from_le_bytes, u64_to_le_bytes,
};
use vstd::slice::slice_subrange;
use vstd::string::{StrSliceExecFns, StringExecFns, StringSliceAdditionalSpecFns};
use vstd::utf8::{
    decode_utf8, encode_utf8, encode_utf8_decode_utf8, encode_utf8_valid_utf8, valid_utf8,
};

use crate::metric::{
    entries_view, events_view, lemma_entries_view_index, lemma_entries_view_len, DatetimeValue,
    EventView, LabeledEntry, LabeledEntryView, Metric, MetricView, RecordedEventData, TimeUnit,
};

verus! {

// ---------------------------------------------------------------------------
// Primitive encodings
// ---------------------------------------------------------------------------

/// Encoding of a `u64`: eight bytes, little endian.
pub open spec fn enc_u64(x: u64) -> Seq<u8> {
    spec_u64_to_le_bytes(x)
}

/// Encoding of a `u32`: four bytes, little endian.
pub open spec fn enc_u32(x: u32) -> Seq<u8> {
    spec_u32_to_le_bytes(x)
}

/// Encoding of an `i32`: shifted into unsigned range, then as a `u32`.
pub open spec fn enc_i32(x: i32) -> Seq<u8> {
    enc_u32((x + 0x8000_0000) as u32)
}

/// Encoding of a byte string: a `u64` length prefix, then the bytes.
pub open spec fn enc_bytes(b: Seq<u8>) -> Seq<u8> {
    enc_u64(b.len() as u64) + b
}

/// Encoding of a character string: its UTF-8 bytes, length-prefixed.
pub open spec fn enc_str(s: Seq<char>) -> Seq<u8> {
    enc_bytes(encode_utf8(s))
}

/// Encoding of an optional string: a presence byte, then the string if any.
pub open spec fn enc_opt_str(s: Option<Seq<char>>) -> Seq<u8> {
    match s {
        None => seq![0u8],
        Some(cs) => seq![1u8] + enc_str(cs),
    }
}

/// The byte that stands for a time unit.
pub open spec fn time_unit_tag(u: TimeUnit) -> u8 {
    match u {
        TimeUnit::Nanosecond => 0,
        TimeUnit::Microsecond => 1,
        TimeUnit::Millisecond => 2,
        TimeUnit::Second => 3,
        TimeUnit::Minute => 4,
        TimeUnit::Hour => 5,
        TimeUnit::Day => 6,
    }
}

/// The time unit a byte stands for, if any.
pub open spec fn time_unit_from_tag(t: u8) -> Option<TimeUnit> {
    if t == 0 {
        Some(TimeUnit::Nanosecond)
    } else if t == 1 {
        Some(TimeUnit::Microsecond)
    } else if t == 2 {
        Some(TimeUnit::Millisecond)
    } else if t == 3 {
        Some(TimeUnit::Second)
    } else if t == 4 {
        Some(TimeUnit::Minute)
    } else if t == 5 {
        Some(TimeUnit::Hour)
    } else if t == 6 {
        Some(TimeUnit::Day)
    } else {
        None
    }
}

// ---------------------------------------------------------------------------
// Well-formedness: every length must fit in the u64 prefixes
// ---------------------------------------------------------------------------

/// A string whose UTF-8 form fits behind a `u64` length prefix.
///
/// Every string actually held in memory satisfies this; it only rules out
/// mathematical sequences too long to exist.
pub open spec fn wf_str(s: Seq<char>) -> bool {
    encode_utf8(s).len() <= u64::MAX
}

/// Well-formedness of an event's strings.
pub open spec fn wf_event(e: EventView) -> bool {
    &&& wf_str(e.category)
    &&& wf_str(e.name)
    &&& match e.extra {
        None => true,
        Some(s) => wf_str(s),
    }
}

/// Well-formedness of a metric value: every contained string and every
/// contained sequence fits behind a `u64` length prefix.
pub open spec fn wf_metric(m: MetricView) -> bool
    decreases m,
{
    match m {
        MetricView::Boolean(_) => true,
        MetricView::Counter(_) => true,
        MetricView::String(s) => wf_str(s),
        MetricView::Uuid(s) => wf_str(s),
        MetricView::Datetime(_, _) => true,
        MetricView::Timespan(_, _) => true,
        MetricView::Distribution(bs) => bs.len() <= u64::MAX,
        MetricView::LabeledSubmetric(es) => es.len() <= u64::MAX && wf_entries(es),
        MetricView::Event(es) => es.len() <= u64::MAX && (forall|i: int|
            0 <= i < es.len() ==> wf_event(#[trigger] es[i])),
        MetricView::Jwe(s) => wf_str(s),
        MetricView::Text(s) => wf_str(s),
        MetricView::Object(s) => wf_str(s),
    }
}

/// Well-formedness of a sequence of labeled entries.
pub open spec fn wf_entries(es: Seq<LabeledEntryView>) -> bool
    decreases es,
{
    if es.len() == 0 {
        true
    } else {
        wf_str(es[0].label) && wf_metric(es[0].value) && wf_entries(es.drop_first())
    }
}

// ---------------------------------------------------------------------------
// The encoding of a metric value
// ---------------------------------------------------------------------------

/// Encoding of one event.
pub open spec fn enc_event(e: EventView) -> Seq<u8> {
    enc_u64(e.timestamp) + enc_str(e.category) + enc_str(e.name) + enc_opt_str(e.extra)
}

/// Encoding of a sequence of events, in order.
pub open spec fn enc_events(es: Seq<EventView>) -> Seq<u8>
    decreases es,
{
    if es.len() == 0 {
        Seq::empty()
    } else {
        enc_event(es[0]) + enc_events(es.drop_first())
    }
}

/// Encoding of a sequence of histogram buckets, in order.
pub open spec fn enc_buckets(bs: Seq<(u64, u64)>) -> Seq<u8>
    decreases bs,
{
    if bs.len() == 0 {
        Seq::empty()
    } else {
        enc_u64(bs[0].0) + enc_u64(bs[0].1) + enc_buckets(bs.drop_first())
    }
}

/// Encoding of a sequence of labeled entries, in order.
pub open spec fn enc_entries(es: Seq<LabeledEntryView>) -> Seq<u8>
    decreases es,
{
    if es.len() == 0 {
        Seq::empty()
    } else {
        enc_str(es[0].label) + enc_metric(es[0].value) + enc_entries(es.drop_first())
    }
}

/// The encoding of a metric value: a variant tag, then the payload.
pub open spec fn enc_metric(m: MetricView) -> Seq<u8>
    decreases m,
{
    match m {
        MetricView::Boolean(b) => seq![0u8, if b { 1u8 } else { 0u8 }],
        MetricView::Counter(c) => seq![1u8] + enc_i32(c),
        MetricView::String(s) => seq![2u8] + enc_str(s),
        MetricView::Uuid(s) => seq![3u8] + enc_str(s),
        MetricView::Datetime(d, u) => seq![4u8] + enc_i32(d.year)
            + seq![d.month, d.day, d.hour, d.minute, d.second] + enc_u32(d.nanosecond)
            + enc_i32(d.offset_seconds) + seq![time_unit_tag(u)],
        MetricView::Timespan(n, u) => seq![5u8] + enc_u64(n) + seq![time_unit_tag(u)],
        MetricView::Distribution(bs) => seq![6u8] + enc_u64(bs.len() as u64) + enc_buckets(bs),
        MetricView::LabeledSubmetric(es) => seq![7u8] + enc_u64(es.len() as u64) + enc_entries(es),
        MetricView::Event(es) => seq![8u8] + enc_u64(es.len() as u64) + enc_events(es),
        MetricView::Jwe(s) => seq![9u8] + enc_str(s),
        MetricView::Text(s) => seq![10u8] + enc_str(s),
        MetricView::Object(s) => seq![11u8] + enc_str(s),
    }
}

// ---------------------------------------------------------------------------
// The mathematical parser: what decoding means
// ---------------------------------------------------------------------------

/// Parse one byte at position `i`.
pub open spec fn p_byte(s: Seq<u8>, i: int) -> Option<(u8, int)> {
    if 0 <= i < s.len() {
        Some((s[i], i + 1))
    } else {
        None
    }
}

/// Parse a little-endian `u64` at position `i`.
pub open spec fn p_u64(s: Seq<u8>, i: int) -> Option<(u64, int)> {
    if 0 <= i && i + 8 <= s.len() {
        Some((spec_u64_from_le_bytes(s.subrange(i, i + 8)), i + 8))
    } else {
        None
    }
}

/// Parse a little-endian `u32` at position `i`.
pub open spec fn p_u32(s: Seq<u8>, i: int) -> Option<(u32, int)> {
    if 0 <= i && i + 4 <= s.len() {
        Some((spec_u32_from_le_bytes(s.subrange(i, i + 4)), i + 4))
    } else {
        None
    }
}

/// Parse an `i32` stored in shifted unsigned form.
pub open spec fn p_i32(s: Seq<u8>, i: int) -> Option<(i32, int)> {
    match p_u32(s, i) {
        Some((x, j)) => Some((((x - 0x8000_0000) as i32), j)),
        None => None,
    }
}

/// Parse a length-prefixed byte string.
pub open spec fn p_bytes(s: Seq<u8>, i: int) -> Option<(Seq<u8>, int)> {
    match p_u64(s, i) {
        Some((n, j)) => if j + n <= s.len() {
            Some((s.subrange(j, j + n), j + n))
        } else {
            None
        },
        None => None,
    }
}

/// Parse a length-prefixed UTF-8 string. Invalid UTF-8 fails the parse.
pub open spec fn p_str(s: Seq<u8>, i: int) -> Option<(Seq<char>, int)> {
    match p_bytes(s, i) {
        Some((b, j)) => if valid_utf8(b) {
            Some((decode_utf8(b), j))
        } else {
            None
        },
        None => None,
    }
}

/// Parse an optional string: a presence byte, then the string if present.
pub open spec fn p_opt_str(s: Seq<u8>, i: int) -> Option<(Option<Seq<char>>, int)> {
    match p_byte(s, i) {
        Some((t, j)) => if t == 0 {
            Some((None, j))
        } else if t == 1 {
            match p_str(s, j) {
                Some((cs, k)) => Some((Some(cs), k)),
                None => None,
            }
        } else {
            None
        },
        None => None,
    }
}

/// Parse a time unit byte.
pub open spec fn p_time_unit(s: Seq<u8>, i: int) -> Option<(TimeUnit, int)> {
    match p_byte(s, i) {
        Some((t, j)) => match time_unit_from_tag(t) {
            Some(u) => Some((u, j)),
            None => None,
        },
        None => None,
    }
}

/// Parse one event.
pub open spec fn p_event(s: Seq<u8>, i: int) -> Option<(EventView, int)> {
    match p_u64(s, i) {
        Some((ts, j1)) => match p_str(s, j1) {
            Some((cat, j2)) => match p_str(s, j2) {
                Some((name, j3)) => match p_opt_str(s, j3) {
                    Some((extra, j4)) => Some(
                        (EventView { timestamp: ts, category: cat, name, extra }, j4),
                    ),
                    None => None,
                },
                None => None,
            },
            None => None,
        },
        None => None,
    }
}

/// Parse `n` events.
pub open spec fn p_events(s: Seq<u8>, i: int, n: nat) -> Option<(Seq<EventView>, int)>
    decreases s.len() - i, n,
{
    if n == 0 {
        Some((Seq::empty(), i))
    } else {
        match p_event(s, i) {
            Some((e, j)) => match p_events(s, j, (n - 1) as nat) {
                Some((rest, k)) => Some((seq![e] + rest, k)),
                None => None,
            },
            None => None,
        }
    }
}

/// Parse `n` histogram buckets.
pub open spec fn p_buckets(s: Seq<u8>, i: int, n: nat) -> Option<(Seq<(u64, u64)>, int)>
    decreases s.len() - i, n,
{
    if n == 0 {
        Some((Seq::empty(), i))
    } else {
        match p_u64(s, i) {
            Some((b, j1)) => match p_u64(s, j1) {
                Some((c, j2)) => match p_buckets(s, j2, (n - 1) as nat) {
                    Some((rest, k)) => Some((seq![(b, c)] + rest, k)),
                    None => None,
                },
                None => None,
            },
            None => None,
        }
    }
}

/// A position bound used only so that the recursion of the parser is
/// visibly finite: keeps `j` if it lies in `(lo, s.len()]`, else moves just
/// past `lo`. On well-formed parses it is the identity.
pub open spec fn bounded_advance(s: Seq<u8>, lo: int, j: int) -> int {
    if lo < j <= s.len() {
        j
    } else if lo + 1 <= s.len() {
        lo + 1
    } else {
        s.len() as int
    }
}

/// Parse a metric value at position `i`: a tag byte, then the payload.
pub open spec fn p_metric(s: Seq<u8>, i: int) -> Option<(MetricView, int)>
    decreases s.len() - i, 1int, 0int,
{
    match p_byte(s, i) {
        None => None,
        Some((tag, j)) => {
            if tag == 0 {
                match p_byte(s, j) {
                    Some((b, k)) => if b == 0 {
                        Some((MetricView::Boolean(false), k))
                    } else if b == 1 {
                        Some((MetricView::Boolean(true), k))
                    } else {
                        None
                    },
                    None => None,
                }
            } else if tag == 1 {
                match p_i32(s, j) {
                    Some((c, k)) => Some((MetricView::Counter(c), k)),
                    None => None,
                }
            } else if tag == 2 {
                match p_str(s, j) {
                    Some((cs, k)) => Some((MetricView::String(cs), k)),
                    None => None,
                }
            } else if tag == 3 {
                match p_str(s, j) {
                    Some((cs, k)) => Some((MetricView::Uuid(cs), k)),
                    None => None,
                }
            } else if tag == 4 {
                match p_datetime(s, j) {
                    Some((m, k)) => Some((m, k)),
                    None => None,
                }
            } else if tag == 5 {
                match p_u64(s, j) {
                    Some((n, k1)) => match p_time_unit(s, k1) {
                        Some((u, k2)) => Some((MetricView::Timespan(n, u), k2)),
                        None => None,
                    },
                    None => None,
                }
            } else if tag == 6 {
                match p_u64(s, j) {
                    Some((n, k)) => match p_buckets(s, k, n as nat) {
                        Some((bs, l)) => Some((MetricView::Distribution(bs), l)),
                        None => None,
                    },
                    None => None,
                }
            } else if tag == 7 {
                match p_u64(s, j) {
                    Some((n, k)) => match p_entries(s, k, n as nat) {
                        Some((es, l)) => Some((MetricView::LabeledSubmetric(es), l)),
                        None => None,
                    },
                    None => None,
                }
            } else if tag == 8 {
                match p_u64(s, j) {
                    Some((n, k)) => match p_events(s, k, n as nat) {
                        Some((es, l)) => Some((MetricView::Event(es), l)),
                        None => None,
                    },
                    None => None,
                }
            } else if tag == 9 {
                match p_str(s, j) {
                    Some((cs, k)) => Some((MetricView::Jwe(cs), k)),
                    None => None,
                }
            } else if tag == 10 {
                match p_str(s, j) {
                    Some((cs, k)) => Some((MetricView::Text(cs), k)),
                    None => None,
                }
            } else if tag == 11 {
                match p_str(s, j) {
                    Some((cs, k)) => Some((MetricView::Object(cs), k)),
                    None => None,
                }
            } else {
                None
            }
        },
    }
}

/// Parse the payload of a datetime value.
pub open spec fn p_datetime(s: Seq<u8>, j: int) -> Option<(MetricView, int)> {
    match p_i32(s, j) {
        Some((year, j1)) => match p_byte(s, j1) {
            Some((month, j2)) => match p_byte(s, j2) {
                Some((day, j3)) => match p_byte(s, j3) {
                    Some((hour, j4)) => match p_byte(s, j4) {
                        Some((minute, j5)) => match p_byte(s, j5) {
                            Some((second, j6)) => match p_u32(s, j6) {
                                Some((nano, j7)) => match p_i32(s, j7) {
                                    Some((off, j8)) => match p_time_unit(s, j8) {
                                        Some((u, j9)) => Some(
                                            (
                                                MetricView::Datetime(
                                                    DatetimeValue {
                                                        year,
                                                        month,
                                                        day,
                                                        hour,
                                                        minute,
                                                        second,
                                                        nanosecond: nano,
                                                        offset_seconds: off,
                                                    },
                                                    u,
                                                ),
                                                j9,
                                            ),
                                        ),
                                        None => None,
                                    },
                                    None => None,
                                },
                                None => None,
                            },
                            None => None,
                        },
                        None => None,
                    },
                    None => None,
                },
                None => None,
            },
            None => None,
        },
        None => None,
    }
}

/// Parse `n` labeled entries: a label, a nested metric, then the rest.
pub open spec fn p_entries(s: Seq<u8>, i: int, n: nat) -> Option<(Seq<LabeledEntryView>, int)>
    decreases s.len() - i, 0int, n,
{
    if n == 0 {
        Some((Seq::empty(), i))
    } else {
        match p_str(s, i) {
            None => None,
            Some((label, j1)) => match p_metric(s, j1) {
                None => None,
                Some((mv, j2)) => {
                    let j3 = bounded_advance(s, j1, j2);
                    match p_entries(s, j3, (n - 1) as nat) {
                        Some((rest, k)) => Some(
                            (seq![LabeledEntryView { label, value: mv }] + rest, k),
                        ),
                        None => None,
                    }
                },
            },
        }
    }
}

// ---------------------------------------------------------------------------
// Parsing an encoding recovers the value
// ---------------------------------------------------------------------------

/// Reading one known byte out of `s`.
proof fn lemma_one_byte(s: Seq<u8>, i: int, b: u8)
    requires
        0 <= i,
        i + 1 <= s.len(),
        s.subrange(i, i + 1) == seq![b],
    ensures
        s[i] == b,
{
    assert(s.subrange(i, i + 1)[0] == s[i]);
    assert(seq![b][0] == b);
}

/// Splitting a known window of `s` that holds `pre + post`.
proof fn lemma_seq_at(s: Seq<u8>, i: int, pre: Seq<u8>, post: Seq<u8>)
    requires
        0 <= i,
        i + pre.len() + post.len() <= s.len(),
        s.subrange(i, i + pre.len() + post.len()) == pre + post,
    ensures
        s.subrange(i, i + pre.len()) == pre,
        s.subrange(i + pre.len(), i + pre.len() + post.len()) == post,
{
    let w = s.subrange(i, i + pre.len() + post.len());
    assert forall|k: int| 0 <= k < pre.len() implies s[i + k] == pre[k] by {
        assert(w[k] == s[i + k]);
        assert((pre + post)[k] == pre[k]);
    }
    assert forall|k: int| 0 <= k < post.len() implies s[i + pre.len() + k] == post[k] by {
        assert(w[pre.len() + k] == s[i + pre.len() + k]);
        assert((pre + post)[pre.len() + k] == post[k]);
    }
    assert(s.subrange(i, i + pre.len()) =~= pre);
    assert(s.subrange(i + pre.len(), i + pre.len() + post.len()) =~= post);
}

/// An encoded `u64` parses back to the value.
proof fn lemma_p_u64_enc(s: Seq<u8>, i: int, x: u64)
    requires
        0 <= i,
        i + 8 <= s.len(),
        s.subrange(i, i + 8) == enc_u64(x),
    ensures
        p_u64(s, i) == Some((x, i + 8)),
{
    lemma_auto_spec_u64_to_from_le_bytes();
    assert(spec_u64_to_le_bytes(x).len() == 8);
    assert(spec_u64_from_le_bytes(spec_u64_to_le_bytes(x)) == x);
}

/// An encoded `u32` parses back to the value.
proof fn lemma_p_u32_enc(s: Seq<u8>, i: int, x: u32)
    requires
        0 <= i,
        i + 4 <= s.len(),
        s.subrange(i, i + 4) == enc_u32(x),
    ensures
        p_u32(s, i) == Some((x, i + 4)),
{
    lemma_auto_spec_u32_to_from_le_bytes();
    assert(spec_u32_to_le_bytes(x).len() == 4);
    assert(spec_u32_from_le_bytes(spec_u32_to_le_bytes(x)) == x);
}

/// An encoded `i32` parses back to the value.
proof fn lemma_p_i32_enc(s: Seq<u8>, i: int, x: i32)
    requires
        0 <= i,
        i + 4 <= s.len(),
        s.subrange(i, i + 4) == enc_i32(x),
    ensures
        p_i32(s, i) == Some((x, i + 4)),
{
    lemma_p_u32_enc(s, i, (x + 0x8000_0000) as u32);
}

/// An encoded string parses back to the same characters.
proof fn lemma_p_str_enc(s: Seq<u8>, i: int, cs: Seq<char>)
    requires
        wf_str(cs),
        0 <= i,
        i + enc_str(cs).len() <= s.len(),
        s.subrange(i, i + enc_str(cs).len()) == enc_str(cs),
    ensures
        p_str(s, i) == Some((cs, i + enc_str(cs).len())),
        enc_str(cs).len() >= 8,
{
    let b = encode_utf8(cs);
    lemma_auto_spec_u64_to_from_le_bytes();
    assert(enc_str(cs) == enc_u64(b.len() as u64) + b);
    lemma_seq_at(s, i, enc_u64(b.len() as u64), b);
    lemma_p_u64_enc(s, i, b.len() as u64);
    assert(s.subrange(i + 8, i + 8 + b.len()) == b);
    encode_utf8_valid_utf8(cs);
    encode_utf8_decode_utf8(cs);
}

/// An encoded optional string parses back to the same value.
proof fn lemma_p_opt_str_enc(s: Seq<u8>, i: int, cs: Option<Seq<char>>)
    requires
        match cs {
            None => true,
            Some(c) => wf_str(c),
        },
        0 <= i,
        i + enc_opt_str(cs).len() <= s.len(),
        s.subrange(i, i + enc_opt_str(cs).len()) == enc_opt_str(cs),
    ensures
        p_opt_str(s, i) == Some((cs, i + enc_opt_str(cs).len())),
{
    match cs {
        None => {
            lemma_one_byte(s, i, 0);
        },
        Some(c) => {
            lemma_seq_at(s, i, seq![1u8], enc_str(c));
            lemma_one_byte(s, i, 1);
            lemma_p_str_enc(s, i + 1, c);
        },
    }
}

/// An encoded time unit parses back to the same unit.
proof fn lemma_p_time_unit_enc(s: Seq<u8>, i: int, u: TimeUnit)
    requires
        0 <= i,
        i + 1 <= s.len(),
        s.subrange(i, i + 1) == seq![time_unit_tag(u)],
    ensures
        p_time_unit(s, i) == Some((u, i + 1)),
{
    lemma_one_byte(s, i, time_unit_tag(u));
}

/// An encoded event parses back to the same event.
proof fn lemma_p_event_enc(s: Seq<u8>, i: int, e: EventView)
    requires
        wf_event(e),
        0 <= i,
        i + enc_event(e).len() <= s.len(),
        s.subrange(i, i + enc_event(e).len()) == enc_event(e),
    ensures
        p_event(s, i) == Some((e, i + enc_event(e).len())),
        enc_event(e).len() >= 1,
{
    let a = enc_u64(e.timestamp);
    let b = enc_str(e.category);
    let c = enc_str(e.name);
    let d = enc_opt_str(e.extra);
    lemma_auto_spec_u64_to_from_le_bytes();
    assert(enc_event(e) == ((a + b) + c) + d);
    lemma_seq_at(s, i, (a + b) + c, d);
    lemma_seq_at(s, i, a + b, c);
    lemma_seq_at(s, i, a, b);
    lemma_p_u64_enc(s, i, e.timestamp);
    lemma_p_str_enc(s, i + 8, e.category);
    lemma_p_str_enc(s, i + 8 + b.len(), e.name);
    lemma_p_opt_str_enc(s, i + 8 + b.len() + c.len(), e.extra);
}

/// An encoded event sequence parses back to the same events.
proof fn lemma_p_events_enc(s: Seq<u8>, i: int, es: Seq<EventView>)
    requires
        forall|k: int| 0 <= k < es.len() ==> wf_event(#[trigger] es[k]),
        0 <= i,
        i + enc_events(es).len() <= s.len(),
        s.subrange(i, i + enc_events(es).len()) == enc_events(es),
    ensures
        p_events(s, i, es.len()) == Some((es, i + enc_events(es).len())),
    decreases es.len(),
{
    if es.len() == 0 {
        assert(p_events(s, i, 0) == Some((Seq::<EventView>::empty(), i)));
        assert(es =~= Seq::<EventView>::empty());
    } else {
        let e0 = es[0];
        let rest = es.drop_first();
        assert(enc_events(es) == enc_event(e0) + enc_events(rest));
        lemma_seq_at(s, i, enc_event(e0), enc_events(rest));
        lemma_p_event_enc(s, i, e0);
        let j = i + enc_event(e0).len();
        assert(forall|k: int| 0 <= k < rest.len() ==> wf_event(#[trigger] rest[k]));
        lemma_p_events_enc(s, j, rest);
        assert(seq![e0] + rest =~= es);
    }
}

/// An encoded bucket sequence parses back to the same buckets.
proof fn lemma_p_buckets_enc(s: Seq<u8>, i: int, bs: Seq<(u64, u64)>)
    requires
        0 <= i,
        i + enc_buckets(bs).len() <= s.len(),
        s.subrange(i, i + enc_buckets(bs).len()) == enc_buckets(bs),
    ensures
        p_buckets(s, i, bs.len()) == Some((bs, i + enc_buckets(bs).len())),
    decreases bs.len(),
{
    if bs.len() == 0 {
        assert(bs =~= Seq::<(u64, u64)>::empty());
    } else {
        let b0 = bs[0];
        let rest = bs.drop_first();
        lemma_auto_spec_u64_to_from_le_bytes();
        assert(enc_buckets(bs) == (enc_u64(b0.0) + enc_u64(b0.1)) + enc_buckets(rest));
        lemma_seq_at(s, i, enc_u64(b0.0) + enc_u64(b0.1), enc_buckets(rest));
        lemma_seq_at(s, i, enc_u64(b0.0), enc_u64(b0.1));
        lemma_p_u64_enc(s, i, b0.0);
        lemma_p_u64_enc(s, i + 8, b0.1);
        lemma_p_buckets_enc(s, i + 16, rest);
        assert(seq![b0] + rest =~= bs);
    }
}

/// An encoded metric value parses back to the same value.
pub proof fn lemma_p_metric_enc(s: Seq<u8>, i: int, m: MetricView)
    requires
        wf_metric(m),
        0 <= i,
        i + enc_metric(m).len() <= s.len(),
        s.subrange(i, i + enc_metric(m).len()) == enc_metric(m),
    ensures
        p_metric(s, i) == Some((m, i + enc_metric(m).len())),
        enc_metric(m).len() >= 1,
    decreases m, 1int,
{
    lemma_auto_spec_u64_to_from_le_bytes();
    lemma_auto_spec_u32_to_from_le_bytes();
    match m {
        MetricView::Boolean(b) => {
            let w = s.subrange(i, i + 2);
            assert(w[0] == s[i] && w[1] == s[i + 1]);
            assert(enc_metric(m)[0] == 0u8);
            assert(enc_metric(m)[1] == if b { 1u8 } else { 0u8 });
        },
        MetricView::Counter(c) => {
            lemma_seq_at(s, i, seq![1u8], enc_i32(c));
            lemma_one_byte(s, i, 1);
            lemma_p_i32_enc(s, i + 1, c);
        },
        MetricView::String(cs) => {
            lemma_seq_at(s, i, seq![2u8], enc_str(cs));
            lemma_one_byte(s, i, 2);
            lemma_p_str_enc(s, i + 1, cs);
        },
        MetricView::Uuid(cs) => {
            lemma_seq_at(s, i, seq![3u8], enc_str(cs));
            lemma_one_byte(s, i, 3);
            lemma_p_str_enc(s, i + 1, cs);
        },
        MetricView::Datetime(d, u) => {
            let a = enc_i32(d.year);
            let b = seq![d.month, d.day, d.hour, d.minute, d.second];
            let c = enc_u32(d.nanosecond);
            let e = enc_i32(d.offset_seconds);
            let f = seq![time_unit_tag(u)];
            assert(enc_metric(m) == ((((seq![4u8] + a) + b) + c) + e) + f);
            lemma_seq_at(s, i, (((seq![4u8] + a) + b) + c) + e, f);
            lemma_seq_at(s, i, ((seq![4u8] + a) + b) + c, e);
            lemma_seq_at(s, i, (seq![4u8] + a) + b, c);
            lemma_seq_at(s, i, seq![4u8] + a, b);
            lemma_seq_at(s, i, seq![4u8], a);
            lemma_one_byte(s, i, 4);
            lemma_p_i32_enc(s, i + 1, d.year);
            let j = i + 5;
            assert(s[j] == d.month && s[j + 1] == d.day && s[j + 2] == d.hour && s[j + 3]
                == d.minute && s[j + 4] == d.second) by {
                assert(s.subrange(j, j + 5) == b);
                assert(s.subrange(j, j + 5)[0] == s[j]);
                assert(s.subrange(j, j + 5)[1] == s[j + 1]);
                assert(s.subrange(j, j + 5)[2] == s[j + 2]);
                assert(s.subrange(j, j + 5)[3] == s[j + 3]);
                assert(s.subrange(j, j + 5)[4] == s[j + 4]);
            }
            lemma_p_u32_enc(s, j + 5, d.nanosecond);
            lemma_p_i32_enc(s, j + 9, d.offset_seconds);
            lemma_p_time_unit_enc(s, j + 13, u);
        },
        MetricView::Timespan(n, u) => {
            assert(enc_metric(m) == (seq![5u8] + enc_u64(n)) + seq![time_unit_tag(u)]);
            lemma_seq_at(s, i, seq![5u8] + enc_u64(n), seq![time_unit_tag(u)]);
            lemma_seq_at(s, i, seq![5u8], enc_u64(n));
            lemma_one_byte(s, i, 5);
            lemma_p_u64_enc(s, i + 1, n);
            lemma_p_time_unit_enc(s, i + 9, u);
        },
        MetricView::Distribution(bs) => {
            assert(enc_metric(m) == (seq![6u8] + enc_u64(bs.len() as u64)) + enc_buckets(bs));
            lemma_seq_at(s, i, seq![6u8] + enc_u64(bs.len() as u64), enc_buckets(bs));
            lemma_seq_at(s, i, seq![6u8], enc_u64(bs.len() as u64));
            lemma_one_byte(s, i, 6);
            lemma_p_u64_enc(s, i + 1, bs.len() as u64);
            lemma_p_buckets_enc(s, i + 9, bs);
            assert((bs.len() as u64) as nat == bs.len());
        },
        MetricView::LabeledSubmetric(es) => {
            assert(enc_metric(m) == (seq![7u8] + enc_u64(es.len() as u64)) + enc_entries(es));
            lemma_seq_at(s, i, seq![7u8] + enc_u64(es.len() as u64), enc_entries(es));
            lemma_seq_at(s, i, seq![7u8], enc_u64(es.len() as u64));
            lemma_one_byte(s, i, 7);
            lemma_p_u64_enc(s, i + 1, es.len() as u64);
            lemma_p_entries_enc(s, i + 9, es);
            assert((es.len() as u64) as nat == es.len());
        },
        MetricView::Event(es) => {
            assert(enc_metric(m) == (seq![8u8] + enc_u64(es.len() as u64)) + enc_events(es));
            lemma_seq_at(s, i, seq![8u8] + enc_u64(es.len() as u64), enc_events(es));
            lemma_seq_at(s, i, seq![8u8], enc_u64(es.len() as u64));
            lemma_one_byte(s, i, 8);
            lemma_p_u64_enc(s, i + 1, es.len() as u64);
            lemma_p_events_enc(s, i + 9, es);
            assert((es.len() as u64) as nat == es.len());
        },
        MetricView::Jwe(cs) => {
            lemma_seq_at(s, i, seq![9u8], enc_str(cs));
            lemma_one_byte(s, i, 9);
            lemma_p_str_enc(s, i + 1, cs);
        },
        MetricView::Text(cs) => {
            lemma_seq_at(s, i, seq![10u8], enc_str(cs));
            lemma_one_byte(s, i, 10);
            lemma_p_str_enc(s, i + 1, cs);
        },
        MetricView::Object(cs) => {
            lemma_seq_at(s, i, seq![11u8], enc_str(cs));
            lemma_one_byte(s, i, 11);
            lemma_p_str_enc(s, i + 1, cs);
        },
    }
}

/// An encoded entry sequence parses back to the same entries.
proof fn lemma_p_entries_enc(s: Seq<u8>, i: int, es: Seq<LabeledEntryView>)
    requires
        wf_entries(es),
        0 <= i,
        i + enc_entries(es).len() <= s.len(),
        s.subrange(i, i + enc_entries(es).len()) == enc_entries(es),
    ensures
        p_entries(s, i, es.len()) == Some((es, i + enc_entries(es).len())),
    decreases es, 0int,
{
    if es.len() == 0 {
        assert(es =~= Seq::<LabeledEntryView>::empty());
    } else {
        let e0 = es[0];
        let rest = es.drop_first();
        assert(enc_entries(es) == (enc_str(e0.label) + enc_metric(e0.value)) + enc_entries(rest));
        lemma_seq_at(s, i, enc_str(e0.label) + enc_metric(e0.value), enc_entries(rest));
        lemma_seq_at(s, i, enc_str(e0.label), enc_metric(e0.value));
        lemma_p_str_enc(s, i, e0.label);
        let j1 = i + enc_str(e0.label).len();
        lemma_p_metric_enc(s, j1, e0.value);
        let j2 = j1 + enc_metric(e0.value).len();
        assert(bounded_advance(s, j1, j2) == j2);
        lemma_p_entries_enc(s, j2, rest);
        assert(seq![LabeledEntryView { label: e0.label, value: e0.value }] + rest =~= es);
    }
}

/// What decoding a stored blob means: a full parse of the whole sequence.
pub open spec fn decode_spec(s: Seq<u8>) -> Option<MetricView> {
    match p_metric(s, 0) {
        Some((m, j)) => if j == s.len() {
            Some(m)
        } else {
            None
        },
        None => None,
    }
}

/// Decoding inverts encoding: every well-formed metric value survives the
/// trip through its binary form unchanged.
pub proof fn lemma_roundtrip(m: MetricView)
    requires
        wf_metric(m),
    ensures
        decode_spec(enc_metric(m)) == Some(m),
{
    let s = enc_metric(m);
    assert(s.subrange(0, s.len() as int) =~= s);
    lemma_p_metric_enc(s, 0, m);
}

// ---------------------------------------------------------------------------
// Executable encoding
// ---------------------------------------------------------------------------

/// Append the little-endian bytes of `x`.
fn push_u64(out: &mut Vec<u8>, x: u64)
    ensures
        final(out)@ == old(out)@ + enc_u64(x),
{
    let mut bs = u64_to_le_bytes(x);
    out.append(&mut bs);
}

/// Append the little-endian bytes of `x`.
fn push_u32(out: &mut Vec<u8>, x: u32)
    ensures
        final(out)@ == old(out)@ + enc_u32(x),
{
    let mut bs = u32_to_le_bytes(x);
    out.append(&mut bs);
}

/// Append an `i32` in shifted unsigned form.
fn push_i32(out: &mut Vec<u8>, x: i32)
    ensures
        final(out)@ == old(out)@ + enc_i32(x),
{
    let shifted: i64 = x as i64 + 0x8000_0000;
    push_u32(out, shifted as u32);
}

/// Append a length-prefixed UTF-8 string.
fn push_str(out: &mut Vec<u8>, s: &str)
    ensures
        final(out)@ == old(out)@ + enc_str(s@),
        wf_str(s@),
{
    let mut bs = s.as_bytes_vec();
    let n = bs.len();
    push_u64(out, n as u64);
    out.append(&mut bs);
}

/// Append an optional string with its presence byte.
fn push_opt_str(out: &mut Vec<u8>, s: &Option<String>)
    ensures
        final(out)@ == old(out)@ + enc_opt_str(match *s {
            Some(ref cs) => Some(cs@),
            None => None,
        }),
        match *s {
            Some(ref cs) => wf_str(cs@),
            None => true,
        },
{
    match s {
        None => {
            out.push(0u8);
            assert(old(out)@.push(0u8) =~= old(out)@ + seq![0u8]);
        },
        Some(cs) => {
            out.push(1u8);
            assert(out@ =~= old(out)@ + seq![1u8]);
            push_str(out, cs.as_str());
            assert((old(out)@ + seq![1u8]) + enc_str(cs@) =~= old(out)@ + (seq![1u8] + enc_str(
                cs@,
            )));
        },
    }
}

/// The byte standing for a time unit.
fn time_unit_byte(u: TimeUnit) -> (r: u8)
    ensures
        r == time_unit_tag(u),
{
    match u {
        TimeUnit::Nanosecond => 0,
        TimeUnit::Microsecond => 1,
        TimeUnit::Millisecond => 2,
        TimeUnit::Second => 3,
        TimeUnit::Minute => 4,
        TimeUnit::Hour => 5,
        TimeUnit::Day => 6,
    }
}

/// Append the encoding of `metric`.
fn encode_into(metric: &Metric, out: &mut Vec<u8>)
    ensures
        final(out)@ == old(out)@ + enc_metric(metric@),
        wf_metric(metric@),
    decreases *metric, 1int, 0int,
{
    match metric {
        Metric::Boolean(b) => {
            out.push(0u8);
            out.push(if *b { 1u8 } else { 0u8 });
            assert(final(out)@ =~= old(out)@ + enc_metric(metric@));
        },
        Metric::Counter(c) => {
            out.push(1u8);
            push_i32(out, *c);
            assert(final(out)@ =~= old(out)@ + enc_metric(metric@));
        },
        Metric::String(s) => {
            out.push(2u8);
            push_str(out, s.as_str());
            assert(final(out)@ =~= old(out)@ + enc_metric(metric@));
        },
        Metric::Uuid(s) => {
            out.push(3u8);
            push_str(out, s.as_str());
            assert(final(out)@ =~= old(out)@ + enc_metric(metric@));
        },
        Metric::Datetime(d, u) => {
            out.push(4u8);
            push_i32(out, d.year);
            out.push(d.month);
            out.push(d.day);
            out.push(d.hour);
            out.push(d.minute);
            out.push(d.second);
            push_u32(out, d.nanosecond);
            push_i32(out, d.offset_seconds);
            out.push(time_unit_byte(*u));
            assert(final(out)@ =~= old(out)@ + enc_metric(metric@));
        },
        Metric::Timespan(n, u) => {
            out.push(5u8);
            push_u64(out, *n);
            out.push(time_unit_byte(*u));
            assert(final(out)@ =~= old(out)@ + enc_metric(metric@));
        },
        Metric::Distribution(bs) => {
            out.push(6u8);
            push_u64(out, bs.len() as u64);
            encode_buckets_into(bs, 0, out);
            assert(bs@.skip(0) =~= bs@);
            assert(final(out)@ =~= old(out)@ + enc_metric(metric@));
        },
        Metric::LabeledSubmetric(es) => {
            out.push(7u8);
            push_u64(out, es.len() as u64);
            proof {
                lemma_entries_view_len(es@);
            }
            encode_entries_into(es, 0, out);
            assert(entries_view(es@).skip(0) =~= entries_view(es@));
            assert(final(out)@ =~= old(out)@ + enc_metric(metric@));
        },
        Metric::Event(es) => {
            out.push(8u8);
            push_u64(out, es.len() as u64);
            encode_events_into(es, 0, out);
            assert(events_view(es@).skip(0) =~= events_view(es@));
            assert(final(out)@ =~= old(out)@ + enc_metric(metric@));
        },
        Metric::Jwe(s) => {
            out.push(9u8);
            push_str(out, s.as_str());
            assert(final(out)@ =~= old(out)@ + enc_metric(metric@));
        },
        Metric::Text(s) => {
            out.push(10u8);
            push_str(out, s.as_str());
            assert(final(out)@ =~= old(out)@ + enc_metric(metric@));
        },
        Metric::Object(s) => {
            out.push(11u8);
            push_str(out, s.as_str());
            assert(final(out)@ =~= old(out)@ + enc_metric(metric@));
        },
    }
}

/// Append the encodings of the buckets from `idx` on.
fn encode_buckets_into(bs: &Vec<(u64, u64)>, idx: usize, out: &mut Vec<u8>)
    requires
        idx <= bs.len(),
    ensures
        final(out)@ == old(out)@ + enc_buckets(bs@.skip(idx as int)),
    decreases bs.len() - idx,
{
    if idx < bs.len() {
        let (b, c) = bs[idx];
        push_u64(out, b);
        push_u64(out, c);
        encode_buckets_into(bs, idx + 1, out);
        proof {
            let tail = bs@.skip(idx as int);
            assert(tail[0] == bs@[idx as int]);
            assert(tail.drop_first() =~= bs@.skip(idx as int + 1));
            assert(final(out)@ =~= old(out)@ + enc_buckets(tail));
        }
    } else {
        assert(bs@.skip(idx as int) =~= Seq::<(u64, u64)>::empty());
    }
}

/// Append the encodings of the events from `idx` on.
fn encode_events_into(es: &Vec<RecordedEventData>, idx: usize, out: &mut Vec<u8>)
    requires
        idx <= es.len(),
    ensures
        final(out)@ == old(out)@ + enc_events(events_view(es@).skip(idx as int)),
        forall|k: int| idx <= k < es.len() ==> wf_event(#[trigger] events_view(es@)[k]),
    decreases es.len() - idx,
{
    if idx < es.len() {
        let e = &es[idx];
        push_u64(out, e.timestamp);
        push_str(out, e.category.as_str());
        push_str(out, e.name.as_str());
        push_opt_str(out, &e.extra);
        encode_events_into(es, idx + 1, out);
        proof {
            let tail = events_view(es@).skip(idx as int);
            assert(events_view(es@)[idx as int] == es@[idx as int]@);
            assert(tail[0] == events_view(es@)[idx as int]);
            assert(tail.drop_first() =~= events_view(es@).skip(idx as int + 1));
            assert(enc_event(es@[idx as int]@) == enc_u64(e.timestamp) + enc_str(e.category@)
                + enc_str(e.name@) + enc_opt_str(es@[idx as int]@.extra));
            assert(final(out)@ =~= old(out)@ + enc_events(tail));
        }
    } else {
        assert(events_view(es@).skip(idx as int) =~= Seq::<EventView>::empty());
    }
}

/// Append the encodings of the labeled entries from `idx` on.
fn encode_entries_into(es: &Vec<LabeledEntry>, idx: usize, out: &mut Vec<u8>)
    requires
        idx <= es.len(),
    ensures
        final(out)@ == old(out)@ + enc_entries(entries_view(es@).skip(idx as int)),
        wf_entries(entries_view(es@).skip(idx as int)),
    decreases *es, 0int, es.len() - idx,
{
    proof {
        lemma_entries_view_len(es@);
    }
    if idx < es.len() {
        let e = &es[idx];
        push_str(out, e.label.as_str());
        proof {
            assert(decreases_to!(*es => es@[idx as int].value));
        }
        encode_into(&e.value, out);
        encode_entries_into(es, idx + 1, out);
        proof {
            lemma_entries_view_index(es@, idx as int);
            let tail = entries_view(es@).skip(idx as int);
            assert(tail[0] == entries_view(es@)[idx as int]);
            assert(tail.drop_first() =~= entries_view(es@).skip(idx as int + 1));
            assert(final(out)@ =~= old(out)@ + enc_entries(tail));
        }
    } else {
        assert(entries_view(es@).skip(idx as int) =~= Seq::<LabeledEntryView>::empty());
    }
}

/// Encode a metric value into its stored binary form.
pub fn encode_metric(metric: &Metric) -> (r: Vec<u8>)
    ensures
        r@ == enc_metric(metric@),
        wf_metric(metric@),
{
    let mut out: Vec<u8> = Vec::new();
    encode_into(metric, &mut out);
    out
}

// ---------------------------------------------------------------------------
// Executable decoding
// ---------------------------------------------------------------------------

#[verifier::external_type_specification]
#[verifier::external_body]
pub struct ExUtf8Error(core::str::Utf8Error);

/// Relies on `core::str::from_utf8`: it returns `Ok` exactly on valid
/// UTF-8, and the returned string slice views those same bytes.
pub assume_specification<'a>[ core::str::from_utf8 ](v: &'a [u8]) -> (r: Result<
    &'a str,
    core::str::Utf8Error,
>)
    ensures
        r matches Ok(s) ==> s.spec_bytes() == v@ && valid_utf8(v@),
        r is Err ==> !valid_utf8(v@),
;

/// Read one byte.
fn read_byte(s: &[u8], pos: usize) -> (r: Option<(u8, usize)>)
    requires
        pos <= s@.len(),
    ensures
        match r {
            Some((b, p)) => p_byte(s@, pos as int) == Some((b, p as int)) && pos < p <= s@.len(),
            None => p_byte(s@, pos as int) is None,
        },
{
    if pos < s.len() {
        Some((s[pos], pos + 1))
    } else {
        None
    }
}

/// Read a little-endian `u64`.
fn read_u64(s: &[u8], pos: usize) -> (r: Option<(u64, usize)>)
    requires
        pos <= s@.len(),
    ensures
        match r {
            Some((x, p)) => p_u64(s@, pos as int) == Some((x, p as int)) && pos < p <= s@.len(),
            None => p_u64(s@, pos as int) is None,
        },
{
    if s.len() - pos >= 8 {
        let sub = slice_subrange(s, pos, pos + 8);
        let x = u64_from_le_bytes(sub);
        Some((x, pos + 8))
    } else {
        None
    }
}

/// Read a little-endian `u32`.
fn read_u32(s: &[u8], pos: usize) -> (r: Option<(u32, usize)>)
    requires
        pos <= s@.len(),
    ensures
        match r {
            Some((x, p)) => p_u32(s@, pos as int) == Some((x, p as int)) && pos < p <= s@.len(),
            None => p_u32(s@, pos as int) is None,
        },
{
    if s.len() - pos >= 4 {
        let sub = slice_subrange(s, pos, pos + 4);
        let x = u32_from_le_bytes(sub);
        Some((x, pos + 4))
    } else {
        None
    }
}

/// Read an `i32` stored in shifted unsigned form.
fn read_i32(s: &[u8], pos: usize) -> (r: Option<(i32, usize)>)
    requires
        pos <= s@.len(),
    ensures
        match r {
            Some((x, p)) => p_i32(s@, pos as int) == Some((x, p as int)) && pos < p <= s@.len(),
            None => p_i32(s@, pos as int) is None,
        },
{
    match read_u32(s, pos) {
        Some((x, p)) => {
            let v: i64 = x as i64 - 0x8000_0000;
            Some((v as i32, p))
        },
        None => None,
    }
}

/// Read a length-prefixed UTF-8 string.
fn read_str(s: &[u8], pos: usize) -> (r: Option<(String, usize)>)
    requires
        pos <= s@.len(),
    ensures
        match r {
            Some((st, p)) => p_str(s@, pos as int) == Some((st@, p as int)) && pos < p <= s@.len(),
            None => p_str(s@, pos as int) is None,
        },
{
    match read_u64(s, pos) {
        None => None,
        Some((n, j)) => {
            if n > (s.len() - j) as u64 {
                None
            } else {
                let nu = n as usize;
                let sub = slice_subrange(s, j, j + nu);
                match core::str::from_utf8(sub) {
                    Ok(st) => {
                        proof {
                            encode_utf8_decode_utf8(st@);
                        }
                        Some((String::from_str(st), j + nu))
                    },
                    Err(_) => None,
                }
            }
        },
    }
}

/// Read an optional string with its presence byte.
fn read_opt_str(s: &[u8], pos: usize) -> (r: Option<(Option<String>, usize)>)
    requires
        pos <= s@.len(),
    ensures
        match r {
            Some((os, p)) => p_opt_str(s@, pos as int) == Some(
                (
                    match os {
                        Some(ref cs) => Some(cs@),
                        None => None,
                    },
                    p as int,
                ),
            ) && pos < p <= s@.len(),
            None => p_opt_str(s@, pos as int) is None,
        },
{
    match read_byte(s, pos) {
        None => None,
        Some((t, j)) => {
            if t == 0 {
                Some((None, j))
            } else if t == 1 {
                match read_str(s, j) {
                    Some((st, p)) => Some((Some(st), p)),
                    None => None,
                }
            } else {
                None
            }
        },
    }
}

/// Read a time unit byte.
fn read_time_unit(s: &[u8], pos: usize) -> (r: Option<(TimeUnit, usize)>)
    requires
        pos <= s@.len(),
    ensures
        match r {
            Some((u, p)) => p_time_unit(s@, pos as int) == Some((u, p as int)) && pos < p
                <= s@.len(),
            None => p_time_unit(s@, pos as int) is None,
        },
{
    match read_byte(s, pos) {
        None => None,
        Some((t, j)) => {
            if t == 0 {
                Some((TimeUnit::Nanosecond, j))
            } else if t == 1 {
                Some((TimeUnit::Microsecond, j))
            } else if t == 2 {
                Some((TimeUnit::Millisecond, j))
            } else if t == 3 {
                Some((TimeUnit::Second, j))
            } else if t == 4 {
                Some((TimeUnit::Minute, j))
            } else if t == 5 {
                Some((TimeUnit::Hour, j))
            } else if t == 6 {
                Some((TimeUnit::Day, j))
            } else {
                None
            }
        },
    }
}

/// Read `n` histogram buckets.
fn decode_buckets_at(s: &[u8], pos: usize, n: u64) -> (r: Option<(Vec<(u64, u64)>, usize)>)
    requires
        pos <= s@.len(),
    ensures
        match r {
            Some((v, p)) => p_buckets(s@, pos as int, n as nat) == Some((v@, p as int)) && pos <= p
                <= s@.len(),
            None => p_buckets(s@, pos as int, n as nat) is None,
        },
    decreases s@.len() - pos, 0int, n,
{
    if n == 0 {
        let v: Vec<(u64, u64)> = Vec::new();
        assert(v@ =~= Seq::<(u64, u64)>::empty());
        Some((v, pos))
    } else {
        match read_u64(s, pos) {
            None => None,
            Some((b, j1)) => match read_u64(s, j1) {
                None => None,
                Some((c, j2)) => match decode_buckets_at(s, j2, n - 1) {
                    None => None,
                    Some((mut v, p)) => {
                        let ghost tail = v@;
                        v.insert(0, (b, c));
                        proof {
                            assert(v@ =~= seq![(b, c)] + tail);
                        }
                        Some((v, p))
                    },
                },
            },
        }
    }
}

/// Read `n` events.
fn decode_events_at(s: &[u8], pos: usize, n: u64) -> (r: Option<(Vec<RecordedEventData>, usize)>)
    requires
        pos <= s@.len(),
    ensures
        match r {
            Some((v, p)) => p_events(s@, pos as int, n as nat) == Some(
                (events_view(v@), p as int),
            ) && pos <= p <= s@.len(),
            None => p_events(s@, pos as int, n as nat) is None,
        },
    decreases s@.len() - pos, 0int, n,
{
    if n == 0 {
        let v: Vec<RecordedEventData> = Vec::new();
        assert(events_view(v@) =~= Seq::<EventView>::empty());
        Some((v, pos))
    } else {
        match read_u64(s, pos) {
            None => None,
            Some((ts, j1)) => match read_str(s, j1) {
                None => None,
                Some((cat, j2)) => match read_str(s, j2) {
                    None => None,
                    Some((name, j3)) => match read_opt_str(s, j3) {
                        None => None,
                        Some((extra, j4)) => match decode_events_at(s, j4, n - 1) {
                            None => None,
                            Some((mut v, p)) => {
                                let e = RecordedEventData { timestamp: ts, category: cat, name, extra };
                                let ghost tail = v@;
                                v.insert(0, e);
                                proof {
                                    assert(v@ =~= seq![e] + tail);
                                    assert(events_view(seq![e] + tail) =~= seq![e@] + events_view(
                                        tail,
                                    ));
                                }
                                Some((v, p))
                            },
                        },
                    },
                },
            },
        }
    }
}

/// Read `n` labeled entries.
fn decode_entries_at(s: &[u8], pos: usize, n: u64) -> (r: Option<(Vec<LabeledEntry>, usize)>)
    requires
        pos <= s@.len(),
    ensures
        match r {
            Some((v, p)) => p_entries(s@, pos as int, n as nat) == Some(
                (entries_view(v@), p as int),
            ) && pos <= p <= s@.len(),
            None => p_entries(s@, pos as int, n as nat) is None,
        },
    decreases s@.len() - pos, 0int, n,
{
    if n == 0 {
        let v: Vec<LabeledEntry> = Vec::new();
        assert(entries_view(v@) =~= Seq::<LabeledEntryView>::empty());
        Some((v, pos))
    } else {
        match read_str(s, pos) {
            None => None,
            Some((label, j1)) => match decode_at(s, j1) {
                None => None,
                Some((m, j2)) => {
                    proof {
                        assert(bounded_advance(s@, j1 as int, j2 as int) == j2 as int);
                    }
                    match decode_entries_at(s, j2, n - 1) {
                        None => None,
                        Some((mut v, p)) => {
                            let e = LabeledEntry { label, value: m };
                            let ghost tail = v@;
                            v.insert(0, e);
                            proof {
                                assert(v@ =~= seq![e] + tail);
                                assert(entries_view(seq![e] + tail) =~= seq![e@] + entries_view(
                                    tail,
                                )) by {
                                    assert((seq![e] + tail).drop_first() =~= tail);
                                }
                            }
                            Some((v, p))
                        },
                    }
                },
            },
        }
    }
}

/// Read one metric value.
fn decode_at(s: &[u8], pos: usize) -> (r: Option<(Metric, usize)>)
    requires
        pos <= s@.len(),
    ensures
        match r {
            Some((m, p)) => p_metric(s@, pos as int) == Some((m@, p as int)) && pos < p <= s@.len(),
            None => p_metric(s@, pos as int) is None,
        },
    decreases s@.len() - pos, 1int, 0int,
{
    match read_byte(s, pos) {
        None => None,
        Some((tag, j)) => {
            if tag == 0 {
                match read_byte(s, j) {
                    Some((b, k)) => {
                        if b == 0 {
                            Some((Metric::Boolean(false), k))
                        } else if b == 1 {
                            Some((Metric::Boolean(true), k))
                        } else {
                            None
                        }
                    },
                    None => None,
                }
            } else if tag == 1 {
                match read_i32(s, j) {
                    Some((c, k)) => Some((Metric::Counter(c), k)),
                    None => None,
                }
            } else if tag == 2 {
                match read_str(s, j) {
                    Some((cs, k)) => Some((Metric::String(cs), k)),
                    None => None,
                }
            } else if tag == 3 {
                match read_str(s, j) {
                    Some((cs, k)) => Some((Metric::Uuid(cs), k)),
                    None => None,
                }
            } else if tag == 4 {
                decode_datetime_at(s, j)
            } else if tag == 5 {
                match read_u64(s, j) {
                    Some((n, k1)) => match read_time_unit(s, k1) {
                        Some((u, k2)) => Some((Metric::Timespan(n, u), k2)),
                        None => None,
                    },
                    None => None,
                }
            } else if tag == 6 {
                match read_u64(s, j) {
                    Some((n, k)) => match decode_buckets_at(s, k, n) {
                        Some((bs, l)) => Some((Metric::Distribution(bs), l)),
                        None => None,
                    },
                    None => None,
                }
            } else if tag == 7 {
                match read_u64(s, j) {
                    Some((n, k)) => match decode_entries_at(s, k, n) {
                        Some((es, l)) => Some((Metric::LabeledSubmetric(es), l)),
                        None => None,
                    },
                    None => None,
                }
            } else if tag == 8 {
                match read_u64(s, j) {
                    Some((n, k)) => match decode_events_at(s, k, n) {
                        Some((es, l)) => Some((Metric::Event(es), l)),
                        None => None,
                    },
                    None => None,
                }
            } else if tag == 9 {
                match read_str(s, j) {
                    Some((cs, k)) => Some((Metric::Jwe(cs), k)),
                    None => None,
                }
            } else if tag == 10 {
                match read_str(s, j) {
                    Some((cs, k)) => Some((Metric::Text(cs), k)),
                    None => None,
                }
            } else if tag == 11 {
                match read_str(s, j) {
                    Some((cs, k)) => Some((Metric::Object(cs), k)),
                    None => None,
                }
            } else {
                None
            }
        },
    }
}

/// Read the payload of a datetime value.
fn decode_datetime_at(s: &[u8], j: usize) -> (r: Option<(Metric, usize)>)
    requires
        j <= s@.len(),
    ensures
        match r {
            Some((m, p)) => p_datetime(s@, j as int) == Some((m@, p as int)) && j < p <= s@.len(),
            None => p_datetime(s@, j as int) is None,
        },
{
    match read_i32(s, j) {
        None => None,
        Some((year, j1)) => match read_byte(s, j1) {
            None => None,
            Some((month, j2)) => match read_byte(s, j2) {
                None => None,
                Some((day, j3)) => match read_byte(s, j3) {
                    None => None,
                    Some((hour, j4)) => match read_byte(s, j4) {
                        None => None,
                        Some((minute, j5)) => match read_byte(s, j5) {
                            None => None,
                            Some((second, j6)) => match read_u32(s, j6) {
                                None => None,
                                Some((nano, j7)) => match read_i32(s, j7) {
                                    None => None,
                                    Some((off, j8)) => match read_time_unit(s, j8) {
                                        None => None,
                                        Some((u, j9)) => Some(
                                            (
                                                Metric::Datetime(
                                                    DatetimeValue {
                                                        year,
                                                        month,
                                                        day,
                                                        hour,
                                                        minute,
                                                        second,
                                                        nanosecond: nano,
                                                        offset_seconds: off,
                                                    },
                                                    u,
                                                ),
                                                j9,
                                            ),
                                        ),
                                    },
                                },
                            },
                        },
                    },
                },
            },
        },
    }
}

/// Decode a stored blob back into a metric value.
///
/// Returns `None` on anything that is not a complete, well-formed encoding;
/// corrupt stored data therefore reads back as absent.
pub fn decode_metric(bytes: &[u8]) -> (r: Option<Metric>)
    ensures
        match r {
            Some(m) => decode_spec(bytes@) == Some(m@),
            None => decode_spec(bytes@) is None,
        },
{
    match decode_at(bytes, 0) {
        Some((m, p)) => {
            if p == bytes.len() {
                Some(m)
            } else {
                None
            }
        },
        None => None,
    }
}

} // verus!
