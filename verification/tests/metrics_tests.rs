use torustiq::metrics::{
    inc_stats_errors_num, inc_stats_msg_in, inc_stats_msg_out, init, listen_address, parse_steps,
    torustiq_module_get_info, update_records_stats, GaugeContainer, InitError, IoMetric, Stats,
    REFRESH_INTERVAL_SECS,
};
use torustiq::params::ParamMap;
use torustiq::record::RecordEnvelope;
use torustiq::stage::{ModuleKind, StageKind};

fn params(pairs: Vec<(&str, &str)>) -> ParamMap {
    let owned: Vec<(String, String)> =
        pairs.into_iter().map(|(k, v)| (String::from(k), String::from(v))).collect();
    ParamMap::from_pairs(&owned)
}

#[test]
fn prometheus_module_info() {
    let info = torustiq_module_get_info();
    assert_eq!(info.id, "prometheus");
    assert_eq!(info.name, "Prometheus metrics");
    assert_eq!(info.kind, ModuleKind::Listener);
    assert_eq!(REFRESH_INTERVAL_SECS, 5);
}

#[test]
fn a_new_metric_has_seen_nothing() {
    let m = IoMetric::new(String::from("reader"));
    assert_eq!(m.module_id, "reader");
    assert_eq!(m.num, 0);
    assert_eq!(m.size_bytes, 0);
}

#[test]
fn count_adds_one_record_and_its_size() {
    let mut m = IoMetric::new(String::from("reader"));
    m.count(10);
    m.count(0);
    m.count(5);
    assert_eq!(m.num, 3);
    assert_eq!(m.size_bytes, 15);
}

#[test]
fn counters_stop_at_the_largest_value() {
    let mut m = IoMetric::new(String::from("x"));
    m.num = usize::MAX;
    m.size_bytes = usize::MAX - 3;
    m.count(10);
    assert_eq!(m.num, usize::MAX);
    assert_eq!(m.size_bytes, usize::MAX);
}

#[test]
fn a_container_counts_known_handles_only() {
    let mut c = GaugeContainer::new();
    assert!(c.get(1).is_none());
    c.insert(1, IoMetric::new(String::from("one")));
    assert!(c.count(1, 7));
    assert!(!c.count(2, 7));
    assert_eq!(c.get(1).unwrap().num, 1);
    assert_eq!(c.get(1).unwrap().size_bytes, 7);
    assert!(c.get(2).is_none());
}

#[test]
fn insert_replaces_a_metric() {
    let mut c = GaugeContainer::new();
    c.insert(1, IoMetric::new(String::from("old")));
    c.count(1, 3);
    c.insert(1, IoMetric::new(String::from("new")));
    assert_eq!(c.get(1).unwrap().module_id, "new");
    assert_eq!(c.get(1).unwrap().num, 0);
}

#[test]
fn steps_are_read_from_the_parameters() {
    let steps = parse_steps(&params(vec![
        ("listen.host", "127.0.0.1"),
        ("pipeline.steps.0.handle", "1"),
        ("pipeline.steps.0.id", "reader"),
        ("pipeline.steps.1.id", "writer"),
        ("pipeline.steps.1.handle", "2"),
    ]))
    .unwrap();
    assert_eq!(steps.len(), 2);
    assert_eq!((steps[0].key.as_str(), steps[0].handle, steps[0].id.as_str()), ("0", Some(1), "reader"));
    assert_eq!((steps[1].key.as_str(), steps[1].handle, steps[1].id.as_str()), ("1", Some(2), "writer"));
}

#[test]
fn a_step_without_handle_or_name_has_the_defaults() {
    let steps = parse_steps(&params(vec![
        ("pipeline.steps.a.id", "named"),
        ("pipeline.steps.b.handle", "7"),
        ("pipeline.steps.c.kind", "source"),
    ]))
    .unwrap();
    assert_eq!(steps.len(), 3);
    assert_eq!((steps[0].handle, steps[0].id.as_str()), (None, "named"));
    assert_eq!((steps[1].handle, steps[1].id.as_str()), (Some(7), ""));
    assert_eq!((steps[2].key.as_str(), steps[2].handle, steps[2].id.as_str()), ("c", None, ""));
}

#[test]
fn names_without_a_dot_and_other_prefixes_are_passed_over() {
    let steps = parse_steps(&params(vec![
        ("pipeline.steps.handle", "1"),
        ("pipeline.step.0.handle", "2"),
        ("steps.0.handle", "3"),
    ]))
    .unwrap();
    assert!(steps.is_empty());
}

#[test]
fn deeper_names_belong_to_the_step_before_the_first_dot() {
    let steps = parse_steps(&params(vec![
        ("pipeline.steps.s.sub.handle", "4"),
        ("pipeline.steps.s.sub.id", "deep"),
    ]))
    .unwrap();
    assert_eq!(steps.len(), 1);
    assert_eq!((steps[0].key.as_str(), steps[0].handle, steps[0].id.as_str()), ("s", Some(4), "deep"));
}

#[test]
fn a_handle_that_is_no_number_is_an_error() {
    for bad in ["", "x", "-1", "4294967296", "1.5", "0", "+0", "000"] {
        let outcome = parse_steps(&params(vec![
            ("pipeline.steps.0.id", "reader"),
            ("pipeline.steps.0.handle", bad),
            ("pipeline.steps.1.handle", "2"),
        ]));
        assert_eq!(outcome.unwrap_err(), InitError::InvalidHandle);
    }
}

#[test]
fn init_gives_each_step_a_fresh_metric_in_each_table() {
    let mut stats = Stats::new();
    let handles = init(
        &mut stats,
        &params(vec![
            ("pipeline.steps.0.handle", "1"),
            ("pipeline.steps.0.id", "reader"),
            ("pipeline.steps.1.handle", "2"),
            ("pipeline.steps.1.id", "writer"),
        ]),
    )
    .unwrap();
    assert_eq!(handles, vec![1, 2]);
    for table in [&stats.msg_in, &stats.msg_out, &stats.errors_num] {
        assert_eq!(table.get(1).unwrap().module_id, "reader");
        assert_eq!(table.get(2).unwrap().module_id, "writer");
        assert_eq!(table.get(1).unwrap().num, 0);
        assert!(table.get(3).is_none());
    }
}

#[test]
fn init_with_bad_parameters_leaves_the_tables_alone() {
    let mut stats = Stats::new();
    stats.msg_in.insert(9, IoMetric::new(String::from("kept")));
    let outcome = init(
        &mut stats,
        &params(vec![("pipeline.steps.0.handle", "1"), ("pipeline.steps.1.handle", "one")]),
    );
    assert_eq!(outcome, Err(InitError::InvalidHandle));
    assert!(stats.msg_in.get(1).is_none());
    assert_eq!(stats.msg_in.get(9).unwrap().module_id, "kept");
}

#[test]
fn each_counter_counts_in_its_own_table() {
    let mut stats = Stats::new();
    init(&mut stats, &params(vec![("pipeline.steps.0.handle", "1"), ("pipeline.steps.0.id", "s")])).unwrap();
    let r = RecordEnvelope::from_text("12345");
    inc_stats_msg_in(&mut stats, 1, &r);
    inc_stats_msg_in(&mut stats, 1, &r);
    inc_stats_msg_out(&mut stats, 1, &r);
    inc_stats_errors_num(&mut stats, 1, &RecordEnvelope::from_text("xy"));
    inc_stats_msg_in(&mut stats, 2, &r);
    assert_eq!((stats.msg_in.get(1).unwrap().num, stats.msg_in.get(1).unwrap().size_bytes), (2, 10));
    assert_eq!((stats.msg_out.get(1).unwrap().num, stats.msg_out.get(1).unwrap().size_bytes), (1, 5));
    assert_eq!((stats.errors_num.get(1).unwrap().num, stats.errors_num.get(1).unwrap().size_bytes), (1, 2));
    assert!(stats.msg_in.get(2).is_none());
}

#[test]
fn readings_name_the_gauges() {
    let mut stats = Stats::new();
    init(&mut stats, &params(vec![("pipeline.steps.0.handle", "1"), ("pipeline.steps.0.id", "reader")])).unwrap();
    inc_stats_msg_in(&mut stats, 1, &RecordEnvelope::from_text("abc"));
    let (count, size) = update_records_stats(&stats.msg_in, "msg_in", 1).unwrap();
    assert_eq!(count.name, "pipeline_steps_msg_in_num");
    assert_eq!(count.step_id, "reader");
    assert_eq!(count.value, 1);
    assert_eq!(size.name, "pipeline_steps_msg_in_size_total_bytes");
    assert_eq!(size.step_id, "reader");
    assert_eq!(size.value, 3);
    assert!(update_records_stats(&stats.msg_in, "msg_in", 2).is_none());
    let (errors, _) = update_records_stats(&stats.errors_num, "errors", 1).unwrap();
    assert_eq!(errors.name, "pipeline_steps_errors_num");
    assert_eq!(errors.value, 0);
}

#[test]
fn the_listen_address_has_defaults() {
    assert_eq!(listen_address(&ParamMap::new()), "0.0.0.0:9000");
    assert_eq!(listen_address(&params(vec![("listen.host", "127.0.0.1")])), "127.0.0.1:9000");
    assert_eq!(listen_address(&params(vec![("port", "9100")])), "0.0.0.0:9100");
    assert_eq!(
        listen_address(&params(vec![("port", "1"), ("listen.host", "10.0.0.1")])),
        "10.0.0.1:1"
    );
}

#[test]
fn the_listener_is_configured_as_a_listener() {
    let c = torustiq::metrics::configure(params(vec![("port", "9100")]));
    assert_eq!(c.kind, StageKind::Listener);
    assert_eq!(c.module, "prometheus");
    assert_eq!(c.handle, 0);
    assert!(!c.exclusive);
    assert_eq!(c.get_param("port"), Some(&String::from("9100")));
}

#[test]
fn a_step_without_a_handle_gets_no_metric() {
    let mut stats = Stats::new();
    let handles = init(&mut stats, &params(vec![("pipeline.steps.a.id", "x")])).unwrap();
    assert!(handles.is_empty());
    for table in [&stats.msg_in, &stats.msg_out, &stats.errors_num] {
        assert!(table.get(0).is_none());
    }
}

#[test]
fn steps_with_and_without_handle_are_told_apart() {
    let mut stats = Stats::new();
    let handles = init(
        &mut stats,
        &params(vec![
            ("pipeline.steps.a.id", "nameless"),
            ("pipeline.steps.b.handle", "3"),
            ("pipeline.steps.b.id", "writer"),
            ("pipeline.steps.c.kind", "source"),
        ]),
    )
    .unwrap();
    assert_eq!(handles, vec![3]);
    assert!(stats.msg_in.get(0).is_none());
    assert_eq!(stats.msg_in.get(3).unwrap().module_id, "writer");
}

#[test]
fn the_handle_zero_names_no_stage() {
    let mut stats = Stats::new();
    let outcome = init(&mut stats, &params(vec![("pipeline.steps.a.handle", "0")]));
    assert_eq!(outcome, Err(InitError::InvalidHandle));
    assert!(stats.msg_in.get(0).is_none());
}

#[test]
fn a_table_holds_nothing_under_the_handle_zero() {
    let mut c = GaugeContainer::new();
    assert!(!c.insert(0, IoMetric::new(String::from("nobody"))));
    assert!(c.get(0).is_none());
    assert!(!c.count(0, 5));
    assert!(c.insert(1, IoMetric::new(String::from("one"))));
    assert!(c.get(1).is_some());
}

#[test]
fn unreadable_parameters_are_reported_with_the_handle_of_the_listener() {
    assert_eq!(
        torustiq::metrics::init_error_message(8, InitError::InvalidHandle),
        "Step '8': the value of a 'handle' parameter is not a stage handle"
    );
    assert_eq!(torustiq::stage::step_report(3, "why"), "Step '3': why");
}
