use glean_core::{
    decode_metric, encode_metric, DatetimeValue, LabeledEntry, Metric, RecordedEventData, TimeUnit,
};

fn roundtrip(m: Metric) -> Metric {
    let bytes = encode_metric(&m);
    decode_metric(bytes.as_slice()).expect("a fresh encoding must decode")
}

#[test]
fn roundtrip_boolean() {
    assert_eq!(Metric::Boolean(true), roundtrip(Metric::Boolean(true)));
    assert_eq!(Metric::Boolean(false), roundtrip(Metric::Boolean(false)));
}

#[test]
fn roundtrip_counter() {
    for v in [0, 1, -1, 734, i32::MAX, i32::MIN] {
        assert_eq!(Metric::Counter(v), roundtrip(Metric::Counter(v)));
    }
}

#[test]
fn roundtrip_string_values() {
    assert_eq!(
        Metric::String("test-value".to_string()),
        roundtrip(Metric::String("test-value".to_string()))
    );
    assert_eq!(
        Metric::String(String::new()),
        roundtrip(Metric::String(String::new()))
    );
    let funky = "snowman \u{2603} and \u{1F980}";
    assert_eq!(
        Metric::String(funky.to_string()),
        roundtrip(Metric::String(funky.to_string()))
    );
    assert_eq!(
        Metric::Uuid("3ec14a9e-4dd8-4d6b-b268-4e0a00f9552a".to_string()),
        roundtrip(Metric::Uuid("3ec14a9e-4dd8-4d6b-b268-4e0a00f9552a".to_string()))
    );
    assert_eq!(
        Metric::Jwe("a.b.c.d.e".to_string()),
        roundtrip(Metric::Jwe("a.b.c.d.e".to_string()))
    );
    assert_eq!(
        Metric::Text("some text".to_string()),
        roundtrip(Metric::Text("some text".to_string()))
    );
    assert_eq!(
        Metric::Object("{}".to_string()),
        roundtrip(Metric::Object("{}".to_string()))
    );
}

#[test]
fn roundtrip_datetime() {
    let d = DatetimeValue {
        year: 2018,
        month: 2,
        day: 25,
        hour: 11,
        minute: 10,
        second: 0,
        nanosecond: 123_456_789,
        offset_seconds: -3600,
    };
    let m = Metric::Datetime(d, TimeUnit::Day);
    assert_eq!(m, roundtrip(Metric::Datetime(d, TimeUnit::Day)));
}

#[test]
fn roundtrip_timespan() {
    let m = Metric::Timespan(1_234_567_890, TimeUnit::Millisecond);
    assert_eq!(
        m,
        roundtrip(Metric::Timespan(1_234_567_890, TimeUnit::Millisecond))
    );
}

#[test]
fn roundtrip_distribution() {
    let m = Metric::Distribution(vec![(0, 1), (10, 4), (100, 2)]);
    assert_eq!(
        m,
        roundtrip(Metric::Distribution(vec![(0, 1), (10, 4), (100, 2)]))
    );
    assert_eq!(
        Metric::Distribution(vec![]),
        roundtrip(Metric::Distribution(vec![]))
    );
}

#[test]
fn roundtrip_events() {
    let events = vec![
        RecordedEventData {
            timestamp: 2,
            category: "telemetry".to_string(),
            name: "click".to_string(),
            extra: None,
        },
        RecordedEventData {
            timestamp: 5,
            category: "telemetry".to_string(),
            name: "scroll".to_string(),
            extra: Some("{\"extra_key\":\"extra_value\"}".to_string()),
        },
    ];
    let m = Metric::Event(events.clone());
    assert_eq!(m, roundtrip(Metric::Event(events)));
}

#[test]
fn roundtrip_labeled_submetric() {
    let m = Metric::LabeledSubmetric(vec![
        LabeledEntry {
            label: "label1".to_string(),
            value: Metric::Counter(2),
        },
        LabeledEntry {
            label: "label2".to_string(),
            value: Metric::LabeledSubmetric(vec![LabeledEntry {
                label: "nested".to_string(),
                value: Metric::String("deep".to_string()),
            }]),
        },
    ]);
    let bytes = encode_metric(&m);
    assert_eq!(Some(m), decode_metric(bytes.as_slice()));
}

#[test]
fn corrupt_encodings_decode_to_absent() {
    // Empty input.
    assert_eq!(None, decode_metric(&[]));
    // Unknown variant tag.
    assert_eq!(None, decode_metric(&[42]));
    // Boolean with an out-of-range payload byte.
    assert_eq!(None, decode_metric(&[0, 2]));
    // A truncated counter.
    assert_eq!(None, decode_metric(&[1, 1, 2]));
    // A string whose length prefix overruns the input.
    assert_eq!(None, decode_metric(&[2, 255, 0, 0, 0, 0, 0, 0, 0, b'a']));
    // A string holding invalid UTF-8.
    assert_eq!(None, decode_metric(&[2, 1, 0, 0, 0, 0, 0, 0, 0, 0x80]));
    // Trailing garbage after a complete encoding.
    let mut bytes = encode_metric(&Metric::Boolean(true));
    bytes.push(0);
    assert_eq!(None, decode_metric(bytes.as_slice()));
}

#[test]
fn encoding_starts_with_variant_tag() {
    assert_eq!(0, encode_metric(&Metric::Boolean(false))[0]);
    assert_eq!(1, encode_metric(&Metric::Counter(0))[0]);
    assert_eq!(2, encode_metric(&Metric::String(String::new()))[0]);
}
