use rylv_metrics::{HistogramConfig, MetricCollector, MetricCollectorTrait, RylvStr, SigFig};

fn fresh(prefix: &str, max: u16) -> MetricCollector {
    MetricCollector::new(String::from(prefix), max, Vec::new(), SigFig::default())
}

#[test]
fn counter_aggregation_three_increments() {
    let mut c = fresh("", 1024);
    for _ in 0..3 {
        let mut tags = vec![RylvStr::from_static("page:home")];
        c.count(RylvStr::from_static("page.views"), &mut tags);
    }
    let out = c.flush();
    assert_eq!(out.concat(), "page.views:3|c|#page:home\n");
}

#[test]
fn counter_add_accumulates() {
    let mut c = fresh("", 1024);
    let mut tags = vec![RylvStr::from_static("protocol:tcp")];
    c.count_add(RylvStr::from_static("data.transferred"), 200, &mut tags);
    c.count_add(RylvStr::from_static("data.transferred"), 150, &mut tags);
    c.count_add(RylvStr::from_static("data.transferred"), 100, &mut tags);
    let out = c.flush();
    assert_eq!(out.concat(), "data.transferred:450|c|#protocol:tcp\n");
}

#[test]
fn tags_are_sorted_in_wire_format() {
    let mut c = fresh("", 1024);
    let mut tags = vec![
        RylvStr::from_static("tag3:v3"),
        RylvStr::from_static("tag1:v1"),
        RylvStr::from_static("tag2:v2"),
    ];
    c.count(RylvStr::from_static("multi"), &mut tags);
    let out = c.flush();
    assert_eq!(out.concat(), "multi:1|c|#tag1:v1,tag2:v2,tag3:v3\n");
}

#[test]
fn tag_order_does_not_split_the_key() {
    let mut c = fresh("", 1024);
    let mut t1 = vec![RylvStr::from_static("a:1"), RylvStr::from_static("b:2")];
    let mut t2 = vec![RylvStr::from_static("b:2"), RylvStr::from_static("a:1")];
    c.count(RylvStr::from_static("orders"), &mut t1);
    c.count(RylvStr::from_static("orders"), &mut t2);
    let out = c.flush();
    assert_eq!(out.concat(), "orders:2|c|#a:1,b:2\n");
}

#[test]
fn gauge_average_rounds_down() {
    let mut c = fresh("", 1024);
    for v in [50u64, 75, 90] {
        let mut tags = vec![RylvStr::from_static("host:web1")];
        c.gauge(RylvStr::from_static("cpu.usage"), v, &mut tags);
    }
    let out = c.flush();
    // (50 + 75 + 90) / 3 = 71
    assert_eq!(out.concat(), "cpu.usage:71|g|#host:web1\n");
}

#[test]
fn histogram_rollup_five_lines() {
    let mut c = fresh("", 1024);
    for v in [100u64, 200, 150, 300] {
        let mut tags = vec![RylvStr::from_static("endpoint:/users")];
        c.histogram(RylvStr::from_static("request.duration"), v, &mut tags);
    }
    let out = c.flush();
    let all = out.concat();
    assert!(all.contains("request.duration.count:4|c|#endpoint:/users\n"));
    assert!(all.contains("request.duration.min:100|g|#endpoint:/users\n"));
    assert!(all.contains("request.duration.max:300|g|#endpoint:/users\n"));
    // the average and the 99th percentile are recorded values within the
    // extrema: here the median-rank value 200 and the top value 300
    assert!(all.contains("request.duration.avg:200|g|#endpoint:/users\n"));
    assert!(all.contains("request.duration.99percentile:300|g|#endpoint:/users\n"));
}

#[test]
fn histogram_single_value() {
    let mut c = fresh("", 1024);
    let mut tags = vec![RylvStr::from_static("endpoint:/api")];
    c.histogram(RylvStr::from_static("custom.histogram"), 250, &mut tags);
    let out = c.flush();
    let all = out.concat();
    assert!(all.contains("custom.histogram.count:1|c|#endpoint:/api\n"));
    assert!(all.contains("custom.histogram.min:250|g|#endpoint:/api\n"));
    assert!(all.contains("custom.histogram.max:250|g|#endpoint:/api\n"));
    assert!(all.contains("custom.histogram.avg:250|g|#endpoint:/api\n"));
    assert!(all.contains("custom.histogram.99percentile:250|g|#endpoint:/api\n"));
}

#[test]
fn prefix_prepended_verbatim() {
    let mut c = fresh("app.", 1024);
    let mut tags = vec![RylvStr::from_static("type:500")];
    c.count(RylvStr::from_static("errors"), &mut tags);
    let out = c.flush();
    let all = out.concat();
    assert!(all.starts_with("app.errors:"));
    assert_eq!(all, "app.errors:1|c|#type:500\n");
}

#[test]
fn no_tags_omits_tag_section() {
    let mut c = fresh("", 1024);
    let mut tags: Vec<RylvStr> = Vec::new();
    c.count(RylvStr::from_static("heartbeat"), &mut tags);
    let out = c.flush();
    assert_eq!(out.concat(), "heartbeat:1|c\n");
}

#[test]
fn no_tags_gauge_and_histogram() {
    let mut c = fresh("", 1024);
    let mut tags: Vec<RylvStr> = Vec::new();
    c.gauge(RylvStr::from_static("notags.gauge"), 100, &mut tags);
    let mut tags: Vec<RylvStr> = Vec::new();
    c.histogram(RylvStr::from_static("notags.histogram"), 250, &mut tags);
    let out = c.flush();
    let all = out.concat();
    assert!(all.contains("notags.gauge:100|g\n"));
    assert!(all.contains("notags.histogram.count:1|c\n"));
    assert!(all.contains("notags.histogram.min:250|g\n"));
    assert!(!all.contains("notags.gauge:100|g|#"));
}

#[test]
fn zero_contribution_keys_are_evicted() {
    let mut c = fresh("", 1024);
    let mut tags = vec![RylvStr::from_static("page:home")];
    c.count(RylvStr::from_static("page.views"), &mut tags);
    let first = c.flush();
    assert_eq!(first.concat(), "page.views:1|c|#page:home\n");
    // nothing recorded since: the retained key has no contribution and the
    // later flushes emit nothing
    let second = c.flush();
    assert_eq!(second.concat(), "");
    let third = c.flush();
    assert_eq!(third.concat(), "");
}

#[test]
fn counters_resume_after_flush() {
    let mut c = fresh("", 1024);
    let mut tags = vec![RylvStr::from_static("page:home")];
    c.count(RylvStr::from_static("page.views"), &mut tags);
    let _ = c.flush();
    let mut tags = vec![RylvStr::from_static("page:home")];
    c.count_add(RylvStr::from_static("page.views"), 5, &mut tags);
    let out = c.flush();
    assert_eq!(out.concat(), "page.views:5|c|#page:home\n");
}

#[test]
fn mixed_kinds_in_one_flush() {
    let mut c = fresh("app.", 1024);
    let mut tags = vec![RylvStr::from_static("endpoint:/api")];
    c.histogram(RylvStr::from_static("latency"), 150, &mut tags);
    let mut tags = vec![RylvStr::from_static("type:500")];
    c.count(RylvStr::from_static("errors"), &mut tags);
    let mut tags = vec![RylvStr::from_static("unit:bytes")];
    c.count_add(RylvStr::from_static("throughput"), 10000, &mut tags);
    let mut tags = vec![RylvStr::from_static("pool:main")];
    c.gauge(RylvStr::from_static("connections"), 42, &mut tags);
    let out = c.flush();
    let all = out.concat();
    assert!(all.contains("app.latency.count:1|c|#endpoint:/api\n"));
    assert!(all.contains("app.errors:1|c|#type:500\n"));
    assert!(all.contains("app.throughput:10000|c|#unit:bytes\n"));
    assert!(all.contains("app.connections:42|g|#pool:main\n"));
}

#[test]
fn shutdown_flushes_and_is_idempotent() {
    let mut c = fresh("", 1024);
    let mut tags = vec![RylvStr::from_static("env:test")];
    c.count(RylvStr::from_static("custom.counter"), &mut tags);
    let first = c.shutdown();
    assert_eq!(first.concat(), "custom.counter:1|c|#env:test\n");
    let second = c.shutdown();
    assert!(second.is_empty());
}

#[test]
fn owned_and_static_tags_share_a_key() {
    let mut c = fresh("", 1024);
    let mut t1 = vec![RylvStr::from_static("env:prod")];
    let mut t2 = vec![RylvStr::Owned(String::from("env:prod"))];
    c.count(RylvStr::from_static("requests"), &mut t1);
    c.count(RylvStr::Owned(String::from("requests")), &mut t2);
    let out = c.flush();
    assert_eq!(out.concat(), "requests:2|c|#env:prod\n");
}

#[test]
fn largest_counter_value_renders_exactly() {
    let mut c = fresh("", 1024);
    let mut tags: Vec<RylvStr> = Vec::new();
    c.count_add(RylvStr::from_static("huge"), u64::MAX, &mut tags);
    let out = c.flush();
    assert_eq!(out.concat(), "huge:18446744073709551615|c\n");
}

#[test]
fn histogram_precision_configuration_is_accepted() {
    let configs = vec![(
        String::from("request.duration"),
        HistogramConfig::new(SigFig::new(2).unwrap()),
    )];
    let mut c = MetricCollector::new(String::new(), 1024, configs, SigFig::default());
    let mut tags = vec![RylvStr::from_static("endpoint:/users")];
    c.histogram(RylvStr::from_static("request.duration"), 100, &mut tags);
    let out = c.flush();
    let all = out.concat();
    assert!(all.contains("request.duration.count:1|c|#endpoint:/users\n"));
    assert!(all.contains("request.duration.min:100|g|#endpoint:/users\n"));
}

#[test]
fn distinct_tag_values_are_distinct_keys() {
    let mut c = fresh("", 1024);
    let mut t1 = vec![RylvStr::from_static("env:test")];
    let mut t2 = vec![RylvStr::from_static("env:prod")];
    c.count(RylvStr::from_static("test.simple.writer.count"), &mut t1);
    c.count(RylvStr::from_static("test.simple.writer.count"), &mut t2);
    let out = c.flush();
    let all = out.concat();
    assert!(all.contains("test.simple.writer.count:1|c|#env:test"));
    assert!(all.contains("test.simple.writer.count:1|c|#env:prod"));
}

#[test]
fn recording_through_the_trait_interface() {
    let mut c = fresh("", 1024);
    let mut tags = vec![RylvStr::from_static("env:test")];
    MetricCollectorTrait::count(&mut c, RylvStr::from_static("via.trait"), &mut tags);
    let mut tags = vec![RylvStr::from_static("env:test")];
    MetricCollectorTrait::gauge(&mut c, RylvStr::from_static("via.trait.gauge"), 9, &mut tags);
    let out = MetricCollectorTrait::shutdown(&mut c);
    let all = out.concat();
    assert!(all.contains("via.trait:1|c|#env:test\n"));
    assert!(all.contains("via.trait.gauge:9|g|#env:test\n"));
}

#[test]
fn gauge_eviction_after_idle_windows() {
    let mut c = fresh("", 1024);
    let mut tags = vec![RylvStr::from_static("host:web1")];
    c.gauge(RylvStr::from_static("cpu.usage"), 40, &mut tags);
    assert_eq!(c.flush().concat(), "cpu.usage:40|g|#host:web1\n");
    assert_eq!(c.flush().concat(), "");
    assert_eq!(c.flush().concat(), "");
}

#[test]
fn histogram_eviction_recycles_the_cell() {
    let mut c = fresh("", 1024);
    let mut tags = vec![RylvStr::from_static("db:postgres")];
    c.histogram(RylvStr::from_static("query.time"), 50, &mut tags);
    assert!(c.flush().concat().contains("query.time.count:1|c|#db:postgres\n"));
    // two idle windows: the key is evicted and its cell returns to the pool
    assert_eq!(c.flush().concat(), "");
    assert_eq!(c.flush().concat(), "");
    // a fresh recording for the same identity starts a new window cleanly
    let mut tags = vec![RylvStr::from_static("db:postgres")];
    c.histogram(RylvStr::from_static("query.time"), 75, &mut tags);
    let all = c.flush().concat();
    assert!(all.contains("query.time.count:1|c|#db:postgres\n"));
    assert!(all.contains("query.time.min:75|g|#db:postgres\n"));
    assert!(all.contains("query.time.max:75|g|#db:postgres\n"));
}
