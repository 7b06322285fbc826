use hitrace_bench::device::device_file_paths;
use hitrace_bench::filter::{Clause, Filter, FilterError, TracePredicate};
use hitrace_bench::point_filters::{PointFilter, PointFilterType};
use hitrace_bench::runconfig::{
    default_all_traces, default_bundle_name, default_commands, default_sleep,
    default_trace_buffer, default_tries, default_url, run_runconfig_filters,
    run_runconfig_points, RunArgs, RunConfig, RunResults,
};
use hitrace_bench::trace::{
    difference_of_traces, line_to_trace, read_lines, Duration, TimeStamp, Trace, TraceError,
    TraceMarker,
};
use hitrace_bench::utils::{avg_min_max, avg_min_max_durations};

fn record(marker: TraceMarker, seconds: u64, micro: u64, shorthand: &str, function: &str) -> Trace {
    Trace {
        name: String::from("org.servo.servo"),
        pid: 44962,
        cpu: 44682,
        timestamp: TimeStamp { seconds, micro },
        trace_marker: marker,
        number: String::from("44682"),
        shorthand: String::from(shorthand),
        function: String::from(function),
    }
}

fn standard_filters() -> Vec<Filter> {
    vec![
        Filter::from_description(
            "Surface->LoadStart",
            "on_surface_created_cb",
            "load status changed Head",
        ),
        Filter::from_description("Load->Compl", "load status changed Head", "PageLoadEndedPrompt"),
    ]
}

fn standard_point_filters() -> Vec<PointFilter> {
    vec![
        PointFilter {
            name: String::from("Explicit"),
            match_str: String::from("explicit"),
            no_unit_conversion: false,
            point_filter_type: PointFilterType::Default,
        },
        PointFilter::new(String::from("Resident"), String::from("resident")),
        PointFilter::new(String::from("LayoutThread"), String::from("layout-thread")),
        PointFilter::new(String::from("image-cache"), String::from("image-cache")),
        PointFilter::new(String::from("JS"), String::from("js")),
        PointFilter {
            name: String::from("TESTCASE_PROFILING"),
            match_str: String::from("generatehtml"),
            no_unit_conversion: true,
            point_filter_type: PointFilterType::Default,
        },
    ]
}

fn lines(text: &str) -> Vec<String> {
    text.lines().map(String::from).collect()
}

fn run_capture(text: &str) -> RunResults {
    let capture = read_lines(&lines(text));
    assert!(capture.malformed.is_empty());
    let config = RunConfig::new(true, RunArgs::default(), standard_filters(), standard_point_filters());
    let mut results = RunResults::new();
    run_runconfig_filters(&config, &capture.traces, &mut results);
    let errors = run_runconfig_points(&config, &capture.traces, &mut results);
    assert!(errors.is_empty());
    results
}

fn check_end_to_end(results: &RunResults) {
    let durations: Vec<(String, Vec<Duration>)> = results
        .filter_results
        .iter()
        .map(|s| (s.key.clone(), s.values.clone()))
        .collect();
    assert_eq!(
        durations,
        vec![
            (
                String::from("E2E/https://servo.org/Surface->LoadStart"),
                vec![Duration { micros: 1_250_000 }]
            ),
            (
                String::from("E2E/https://servo.org/Load->Compl"),
                vec![Duration { micros: 3_000_500 }]
            ),
        ]
    );
    assert!(results.errors.is_empty());
    let points: Vec<(String, bool, Vec<u64>)> = results
        .point_results
        .iter()
        .map(|s| (s.key.clone(), s.point.no_unit_conversion, s.point.result.clone()))
        .collect();
    assert_eq!(
        points,
        vec![
            (String::from("E2E/https://servo.org/Resident"), false, vec![270778368]),
            (String::from("E2E/https://servo.org/"), true, vec![1720]),
        ]
    );
}

const V1_CAPTURE: &str = "\
# tracer: nop
 org.servo.servo-44962   (  44682) [010] .... 17864.500000: tracing_mark_write: C|44682|H:on_surface_created_cb
 org.servo.servo-44962   (  44682) [010] .... 17865.750000: tracing_mark_write: C|44682|H:load status changed Head
 org.servo.servo-44962   (  44682) [010] .... 17866.000000: tracing_mark_write: C|44682|H:servo_memory_profiling:resident 270778368
 org.servo.servo-44962   (  44682) [010] .... 17868.750500: tracing_mark_write: C|44682|H:PageLoadEndedPrompt
 org.servo.servo-44962   (  44682) [010] .... 17869.000000: tracing_mark_write: C|44682|H:TESTCASE_PROFILING: generatehtml 1720
 kworker/u16:1-123   (  123) [001] .... 17869.100000: sched_switch: prev_comm=kworker
";

const V5_CAPTURE: &str = "\
 org.servo.servo-44962   (  44682) [010] .... 17864.500000: tracing_mark_write: C|44682|H:on_surface_created_cb|1|M
 org.servo.servo-44962   (  44682) [010] .... 17865.750000: tracing_mark_write: C|44682|H:load status changed Head|1|M
 org.servo.servo-44962   (  44682) [010] .... 17866.000000: tracing_mark_write: C|44682|H:servo_memory_profiling:resident|270778368|M
 org.servo.servo-44962   (  44682) [010] .... 17868.750500: tracing_mark_write: C|44682|H:PageLoadEndedPrompt|1|M
 org.servo.servo-44962   (  44682) [010] .... 17869.000000: tracing_mark_write: C|44682|H:TESTCASE_PROFILING: generatehtml|1720|M
";

#[test]
fn full_default_v1() {
    check_end_to_end(&run_capture(V1_CAPTURE));
}

#[test]
fn full_default_v5() {
    check_end_to_end(&run_capture(V5_CAPTURE));
}

#[test]
fn test_testcaseprofiling_v1_v5() {
    for text in [V1_CAPTURE, V5_CAPTURE] {
        let capture = read_lines(&lines(text));
        let config = RunConfig::new(
            true,
            RunArgs::default(),
            vec![],
            vec![PointFilter {
                name: String::from("TESTCASE_PROFILING"),
                match_str: String::from("generatehtml"),
                no_unit_conversion: true,
                point_filter_type: PointFilterType::Default,
            }],
        );
        let mut results = RunResults::new();
        run_runconfig_points(&config, &capture.traces, &mut results);
        assert_eq!(results.point_results.len(), 1);
        assert_eq!(results.point_results[0].key, "E2E/https://servo.org/");
        assert_eq!(results.point_results[0].point.result, vec![1720]);
        let stats = avg_min_max(&results.point_results[0].point.result);
        assert_eq!((stats.avg, stats.min, stats.max, stats.number), (1720, 1720, 1720, 1));
    }
}

#[test]
fn parses_canonical_line() {
    let line = " org.servo.servo-44962   (  44682) [010] .... 17864.716645: tracing_mark_write: B|44682|ML: do_single_part3_compilation";
    let t = line_to_trace(line).unwrap().unwrap();
    assert_eq!(t.name, "org.servo.servo");
    assert_eq!(t.pid, 44962);
    assert_eq!(t.cpu, 44682);
    assert_eq!(t.timestamp, TimeStamp { seconds: 17864, micro: 716645 });
    assert_eq!(t.trace_marker, TraceMarker::StartSync);
    assert_eq!(t.number, "44682");
    assert_eq!(t.shorthand, "ML");
    assert_eq!(t.function, " do_single_part3_compilation");
}

#[test]
fn unrelated_line_is_skipped() {
    assert!(line_to_trace("# tracer: nop").is_none());
    assert!(line_to_trace(" kworker-1 (1) [001] .... 5.6: sched_switch: x").is_none());
}

#[test]
fn unknown_marker_is_malformed() {
    let line = " app-1 (2) [000] .... 3.4: tracing_mark_write: X|5|H:payload";
    assert!(matches!(line_to_trace(line), Some(Err(TraceError::UnknownMarker))));
    let capture = read_lines(&lines(&format!("{line}\n app-1 (2) [000] .... 3.5: tracing_mark_write: C|5|H:ok")));
    assert_eq!(capture.malformed, vec![0]);
    assert_eq!(capture.traces.len(), 1);
    assert_eq!(capture.traces[0].function, "ok");
}

#[test]
fn oversized_number_is_malformed() {
    let line = " app-1 (2) [000] .... 99999999999999999999.4: tracing_mark_write: C|5|H:payload";
    assert!(matches!(line_to_trace(line), Some(Err(TraceError::NumberOutOfRange))));
}

#[test]
fn round_trip_every_marker() {
    for marker in [
        TraceMarker::StartSync,
        TraceMarker::EndSync,
        TraceMarker::StartAsync,
        TraceMarker::EndAsync,
        TraceMarker::Dot,
    ] {
        let t = record(marker, 17864, 716645, "ML", "a: b|c");
        let line = t.to_line();
        let back = line_to_trace(&line).unwrap().unwrap();
        assert_eq!(back.name, t.name);
        assert_eq!(back.pid, t.pid);
        assert_eq!(back.cpu, t.cpu);
        assert_eq!(back.timestamp, t.timestamp);
        assert_eq!(back.trace_marker, t.trace_marker);
        assert_eq!(back.number, t.number);
        assert_eq!(back.shorthand, t.shorthand);
        assert_eq!(back.function, t.function);
    }
}

#[test]
fn marker_from_text() {
    assert_eq!(TraceMarker::from("B"), Ok(TraceMarker::StartSync));
    assert_eq!(TraceMarker::from("E"), Ok(TraceMarker::EndSync));
    assert_eq!(TraceMarker::from("S"), Ok(TraceMarker::StartAsync));
    assert_eq!(TraceMarker::from("F"), Ok(TraceMarker::EndAsync));
    assert_eq!(TraceMarker::from("C"), Ok(TraceMarker::Dot));
    assert_eq!(TraceMarker::from("BC"), Err(TraceError::UnknownMarker));
    assert_eq!(TraceMarker::from("x"), Err(TraceError::UnknownMarker));
}

fn tagged(marker: TraceMarker) -> TracePredicate {
    TracePredicate {
        clauses: vec![Clause::ShorthandEquals(String::from("A")), Clause::MarkerIs(marker)],
    }
}

#[test]
fn interval_is_exact() {
    let traces = vec![
        record(TraceMarker::Dot, 9, 0, "A", "noise"),
        record(TraceMarker::StartSync, 10, 0, "A", "begin"),
        record(TraceMarker::StartSync, 11, 0, "B", "other"),
        record(TraceMarker::EndSync, 12, 500000, "A", "end"),
    ];
    let f = Filter {
        name: String::from("A"),
        first: tagged(TraceMarker::StartSync),
        last: tagged(TraceMarker::EndSync),
    };
    assert_eq!(f.filter_to_duration(&traces), Ok(Duration { micros: 2_500_000 }));
    let by_text = Filter::from_description("A", "begin", "end");
    assert_eq!(by_text.filter_to_duration(&traces), Ok(Duration { micros: 2_500_000 }));
    assert_eq!(
        difference_of_traces(&traces[1], &traces[3]),
        Duration { micros: -2_500_000 }
    );
}

#[test]
fn interval_ambiguity_reports_counts() {
    let traces = vec![
        record(TraceMarker::StartSync, 10, 0, "A", "begin"),
        record(TraceMarker::StartSync, 11, 0, "A", "begin again"),
        record(TraceMarker::EndSync, 12, 500000, "A", "end"),
    ];
    let f = Filter::from_description("A", "begin", "end");
    assert_eq!(f.filter_to_duration(&traces), Err(FilterError { first: 2, last: 1 }));
    let none = Filter::from_description("B", "missing", "end");
    assert_eq!(none.filter_to_duration(&traces), Err(FilterError { first: 0, last: 1 }));
}

#[test]
fn failures_are_counted_per_key() {
    let traces = vec![record(TraceMarker::Dot, 1, 0, "H", "only")];
    let config = RunConfig::new(false, RunArgs::default(), standard_filters(), vec![]);
    let mut results = RunResults::new();
    run_runconfig_filters(&config, &traces, &mut results);
    run_runconfig_filters(&config, &traces, &mut results);
    let errors: Vec<(String, u32)> = results.errors.iter().map(|e| (e.key.clone(), e.count)).collect();
    assert_eq!(
        errors,
        vec![(String::from("Surface->LoadStart"), 2), (String::from("Load->Compl"), 2)]
    );
    assert!(results.filter_results.is_empty());
}

#[test]
fn aggregation_of_single_value() {
    let s = avg_min_max(&[42]);
    assert_eq!((s.avg, s.min, s.max, s.number), (42, 42, 42, 1));
    let d = avg_min_max_durations(&[Duration { micros: -7 }]);
    assert_eq!((d.avg, d.min, d.max, d.number), (Duration { micros: -7 }, Duration { micros: -7 }, Duration { micros: -7 }, 1));
}

#[test]
fn aggregation_ignores_order() {
    let a = avg_min_max(&[3, 10, 4]);
    let b = avg_min_max(&[10, 4, 3]);
    assert_eq!(a, b);
    assert_eq!((a.avg, a.min, a.max, a.number), (5, 3, 10, 3));
    let d = avg_min_max_durations(&[Duration { micros: -3 }, Duration { micros: -4 }]);
    assert_eq!(d.avg, Duration { micros: -3 });
    let e = avg_min_max_durations(&[Duration { micros: -4 }, Duration { micros: -3 }]);
    assert_eq!(d, e);
}

#[test]
fn defaults_of_run_args() {
    assert!(!default_all_traces());
    assert_eq!(default_tries(), 1);
    assert_eq!(default_url(), "https://servo.org");
    assert_eq!(default_trace_buffer(), 524288);
    assert_eq!(default_sleep(), 10);
    assert_eq!(default_bundle_name(), "org.servo.servo");
    assert_eq!(default_commands(), None);
    let a = RunArgs::default();
    assert_eq!(a.url, "https://servo.org");
    assert_eq!(a.tries, 1);
}

#[test]
fn local_page_paths() {
    let p = device_file_paths("file:///index.html", "org.servo.servo");
    assert_eq!(p.stem, "index.html");
    assert_eq!(p.in_app, "file:///data/storage/el2/base/cache/index.html");
    assert_eq!(p.on_device, "/data/app/el2/100/base/org.servo.servo/cache/index.html");
    let q = device_file_paths("page.html", "b");
    assert_eq!(q.stem, "page.html");
}

#[test]
fn end_before_start_gives_negative_interval() {
    let traces = vec![
        record(TraceMarker::EndSync, 10, 250000, "A", "end"),
        record(TraceMarker::StartSync, 12, 0, "A", "begin"),
    ];
    let f = Filter::from_description("A", "begin", "end");
    assert_eq!(f.filter_to_duration(&traces), Ok(Duration { micros: -1_750_000 }));
}
