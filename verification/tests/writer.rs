use rylv_metrics::{metric_len, MetricsError, StatsWriterSimple};

#[test]
fn metric_len_counts_every_byte() {
    // "pre" + "metric" + ":" + "42" + "|" + "c" + "|#" + "a:1" + "\n"
    let n = metric_len("pre", &["metric"], "a:1", "42", "c");
    assert_eq!(n, 3 + 6 + 1 + 2 + 1 + 1 + 2 + 3 + 1);
}

#[test]
fn metric_len_without_tags_omits_marker() {
    let n = metric_len("", &["m"], "", "7", "c");
    assert_eq!(n, 1 + 1 + 1 + 1 + 1 + 1);
}

#[test]
fn simple_writer_formats_lines() {
    let mut w = StatsWriterSimple::new(String::new(), 512);
    w.write(&["custom.metric"], "env:test", "42", "c").expect("write should succeed");
    w.write(&["another.metric"], "", "1", "g").expect("write should succeed");
    let out = w.flush();
    assert_eq!(out.concat(), "custom.metric:42|c|#env:test\nanother.metric:1|g\n");
}

#[test]
fn oversized_line_is_refused() {
    let mut w = StatsWriterSimple::new(String::new(), 10);
    let err = w.write(&["a.rather.long.metric.name"], "", "1", "c").unwrap_err();
    match err {
        MetricsError::Custom(msg) => assert_eq!(msg, "Metric is larger than 10"),
    }
    // nothing was queued by the refused line
    let out = w.flush();
    assert!(out.is_empty());
}

#[test]
fn datagrams_never_exceed_the_packet_size() {
    let max: u16 = 30;
    let mut w = StatsWriterSimple::new(String::new(), max);
    for _ in 0..10 {
        w.write(&["metric.name"], "a:1", "123", "c").expect("line fits on its own");
    }
    let out = w.flush();
    let mut all = String::new();
    for d in &out {
        assert!(d.len() <= max as usize);
        assert!(!d.is_empty());
        all.push_str(d);
    }
    assert_eq!(all, "metric.name:123|c|#a:1\n".repeat(10));
}

#[test]
fn lines_pack_into_one_datagram_when_they_fit() {
    let mut w = StatsWriterSimple::new(String::new(), 512);
    w.write(&["a"], "", "1", "c").expect("fits");
    w.write(&["b"], "", "2", "c").expect("fits");
    let out = w.flush();
    assert_eq!(out.len(), 1);
    assert_eq!(out[0], "a:1|c\nb:2|c\n");
}

#[test]
fn reset_discards_pending_lines() {
    let mut w = StatsWriterSimple::new(String::new(), 512);
    w.write(&["pending.metric"], "scope:drop", "1", "c").expect("write should succeed");
    w.reset();
    let out = w.flush();
    assert!(out.is_empty());
}

#[test]
fn metric_copied_reports_copying() {
    let w = StatsWriterSimple::new(String::new(), 512);
    assert!(w.metric_copied());
}

#[test]
fn flush_on_empty_writer_returns_nothing() {
    let mut w = StatsWriterSimple::new(String::from("p."), 128);
    let out = w.flush();
    assert!(out.is_empty());
}

#[test]
fn segments_concatenate_without_separator() {
    let mut w = StatsWriterSimple::new(String::from("app."), 512);
    w.write(&["latency", ".count"], "service:api", "1", "c").expect("write should succeed");
    let out = w.flush();
    assert_eq!(out.concat(), "app.latency.count:1|c|#service:api\n");
}
