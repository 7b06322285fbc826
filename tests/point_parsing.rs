use hitrace_bench::point_filters::{
    parse_fcp_trace, parse_lcp_trace, FCPTraceValue, LCPTraceValues, Point, PointError,
    PointFilter, PointFilterType, PointKind, PointType,
};
use hitrace_bench::runconfig::{run_runconfig_points, RunArgs, RunConfig, RunResults};
use hitrace_bench::trace::{Trace, TraceMarker};

fn bench_points(traces: &Vec<Trace>, f: PointFilter) -> Vec<(String, Vec<u64>)> {
    let config = RunConfig::new(true, RunArgs::default(), vec![], vec![f]);
    let mut results = RunResults::new();
    run_runconfig_points(&config, traces, &mut results);
    results
        .point_results
        .iter()
        .map(|s| (s.key.clone(), s.point.result.clone()))
        .collect()
}

fn dot(function: &str) -> Trace {
    Trace::new(1, 100, TraceMarker::Dot, function)
}

fn filter(name: &str, match_str: &str, policy: PointFilterType, count: bool) -> PointFilter {
    PointFilter {
        name: String::from(name),
        match_str: String::from(match_str),
        no_unit_conversion: count,
        point_filter_type: policy,
    }
}

fn names_and_values(points: &[Point]) -> Vec<(String, u64)> {
    points
        .iter()
        .map(|p| (p.name.clone(), p.point_type.numeric_value().unwrap()))
        .collect()
}

#[test]
fn test_trace_kv_parsing() {
    let test_str =
        "paint_time=CrossProcessInstant { value: 231277222481376 },area=4095,lcp_type=Image,pipeline_id=(1,1)"
            .to_string();

    assert_eq!(
        parse_lcp_trace(&test_str),
        Some(LCPTraceValues {
            paint_time: 231277222481376,
            area: 4095
        })
    );
}

#[test]
fn test_lcp_parsing() {
    assert_eq!(
        parse_lcp_trace(
            "paint_time=CrossProcessInstant { value: 231277222481376 },area=4095,lcp_type=Image,pipeline_id=(1,1)"
        ),
        Some(LCPTraceValues {
            paint_time: 231277222481376,
            area: 4095
        })
    );
}

#[test]
fn test_fcp_parsing() {
    assert_eq!(
        parse_fcp_trace(
            "epoch=Epoch(1),paint_time=CrossProcessInstant { value: 271633800350218 },pipeline_id=(1,1)"
        ),
        Some(FCPTraceValue {
            paint_time: 271633800350218,
        })
    );
}

#[test]
fn wrapped_instant_fragment_is_unwrapped() {
    assert_eq!(
        parse_lcp_trace("paint_time=CrossProcessInstant { value: 231277222481376 },area=4095"),
        Some(LCPTraceValues {
            paint_time: 231277222481376,
            area: 4095
        })
    );
}

#[test]
fn bare_paint_time_is_accepted() {
    assert_eq!(
        parse_lcp_trace("paint_time=17,area=3"),
        Some(LCPTraceValues {
            paint_time: 17,
            area: 3
        })
    );
}

#[test]
fn paint_without_area_is_no_lcp() {
    assert_eq!(
        parse_lcp_trace("paint_time=CrossProcessInstant { value: 5 },pipeline_id=(1,1)"),
        None
    );
    assert_eq!(
        parse_fcp_trace("paint_time=CrossProcessInstant { value: 5 },pipeline_id=(1,1)"),
        Some(FCPTraceValue { paint_time: 5 })
    );
    assert_eq!(parse_fcp_trace("paint_time=Instant { valu: 5 }"), None);
}

#[test]
fn numeric_value_of_each_kind() {
    assert_eq!(PointType::MemoryUrl(1).numeric_value(), Some(1));
    assert_eq!(PointType::MemoryReport(2).numeric_value(), Some(2));
    assert_eq!(PointType::Smaps(3).numeric_value(), Some(3));
    assert_eq!(PointType::Testcase(4).numeric_value(), Some(4));
    assert_eq!(PointType::Combined(5).numeric_value(), Some(5));
    assert_eq!(PointType::LargestContentfulPaint(6).numeric_value(), Some(6));
}

#[test]
fn memory_report_in_both_forms() {
    let traces = vec![
        dot("servo_memory_profiling:resident 270778368"),
        dot("servo_memory_profiling:explicit|1024|M"),
    ];
    let resident = PointFilter::new(String::from("Resident"), String::from("resident"));
    let r = resident.pointfilter_to_point(&traces, "https://servo.org");
    assert_eq!(
        names_and_values(&r.points),
        vec![(String::from("Resident"), 270778368)]
    );
    assert!(matches!(r.points[0].point_type, PointType::MemoryReport(_)));
    assert_eq!(r.points[0].trace, Some(0));
    let explicit = PointFilter::new(String::from("Explicit"), String::from("explicit"));
    let r = explicit.pointfilter_to_point(&traces, "https://servo.org");
    assert_eq!(
        names_and_values(&r.points),
        vec![(String::from("Explicit"), 1024)]
    );
}

#[test]
fn memory_url_keeps_target_and_suffix() {
    let traces = vec![
        dot("servo_memory_profiling:url(https://servo.org/)/js/non-heap 262144"),
        dot("servo_memory_profiling:url(https://other.example/)/js/non-heap 99"),
    ];
    let js = PointFilter::new(String::from("JS"), String::from("js"));
    let r = js.pointfilter_to_point(&traces, "https://servo.org");
    assert_eq!(
        names_and_values(&r.points),
        vec![(String::from("JS/non-heap"), 262144)]
    );
    assert!(matches!(r.points[0].point_type, PointType::MemoryUrl(262144)));
    assert!(r.errors.is_empty());
}

#[test]
fn smaps_tag_must_equal_match_text() {
    let traces = vec![
        dot("servo_memory_profiling:resident-according-to-smaps/other 60424192"),
        dot("servo_memory_profiling:resident-according-to-smaps/others 1"),
    ];
    let other = filter("smaps-other", "other", PointFilterType::Default, false);
    let r = other.pointfilter_to_point(&traces, "https://servo.org");
    assert_eq!(
        names_and_values(&r.points),
        vec![(String::from("smaps-other"), 60424192)]
    );
    assert!(matches!(r.points[0].point_type, PointType::Smaps(60424192)));
}

#[test]
fn testcase_point_in_both_forms() {
    let traces = vec![
        dot("TESTCASE_PROFILING: generatehtml 1720"),
        Trace::new(2, 100, TraceMarker::EndSync, "TESTCASE_PROFILING: generatehtml 1"),
    ];
    let f = filter("TESTCASE_PROFILING", "generatehtml", PointFilterType::Default, true);
    let r = f.pointfilter_to_point(&traces, "https://servo.org");
    assert_eq!(
        names_and_values(&r.points),
        vec![(String::new(), 1720)]
    );
    let traces = vec![dot("TESTCASE_PROFILING: generatehtml|1720|M")];
    let r = f.pointfilter_to_point(&traces, "https://servo.org");
    assert_eq!(
        names_and_values(&r.points),
        vec![(String::new(), 1720)]
    );
}

#[test]
fn default_policy_rejects_duplicate_memory_reports() {
    let traces = vec![
        dot("servo_memory_profiling:resident 10"),
        dot("servo_memory_profiling:resident 20"),
    ];
    let resident = PointFilter::new(String::from("Resident"), String::from("resident"));
    let r = resident.pointfilter_to_point(&traces, "https://servo.org");
    assert!(r.points.is_empty());
    assert_eq!(r.errors.len(), 1);
    match &r.errors[0] {
        PointError::TooManyTracesMatching { kind, traces } => {
            assert_eq!(*kind, PointKind::MemoryReport);
            assert_eq!(traces, &vec![0, 1]);
        }
        other => panic!("unexpected error {:?}", other),
    }
}

#[test]
fn combined_sums_and_largest_keeps_maximum() {
    let traces = vec![
        dot("servo_memory_profiling:js 10"),
        dot("servo_memory_profiling:js 20"),
        dot("servo_memory_profiling:js 5"),
    ];
    let combined = filter("JS", "js", PointFilterType::Combined, false);
    let r = combined.pointfilter_to_point(&traces, "u");
    assert_eq!(names_and_values(&r.points), vec![(String::from("JS"), 35)]);
    assert!(matches!(r.points[0].point_type, PointType::Combined(35)));
    assert_eq!(r.points[0].trace, None);
    let largest = filter("JS", "js", PointFilterType::Largest, false);
    let r = largest.pointfilter_to_point(&traces, "u");
    assert_eq!(names_and_values(&r.points), vec![(String::from("JS"), 20)]);
    assert!(matches!(
        r.points[0].point_type,
        PointType::LargestContentfulPaint(20)
    ));
}

#[test]
fn combined_single_point_is_kept_as_is() {
    let traces = vec![dot("servo_memory_profiling:js 10")];
    let combined = filter("JS", "js", PointFilterType::Combined, false);
    let r = combined.pointfilter_to_point(&traces, "u");
    assert_eq!(names_and_values(&r.points), vec![(String::from("JS"), 10)]);
    assert!(matches!(r.points[0].point_type, PointType::MemoryReport(10)));
    assert_eq!(r.points[0].trace, Some(0));
}

#[test]
fn test_lcp_v5() {
    let traces = vec![dot(
        "LargestContentfulPaint|M|paint_time=CrossProcessInstant { value: 231277380060022 },area=90810,lcp_type=Image,pipeline_id=(1,1)",
    )];
    let f = filter(
        "LargestContentfulPaint",
        "LargestContentfulPaint",
        PointFilterType::Largest,
        true,
    );
    let r = f.pointfilter_to_point(&traces, "https://servo.org");
    assert_eq!(
        names_and_values(&r.points),
        vec![
            (
                String::from("LargestContentfulPaint/paint_time"),
                231277380060022
            ),
            (
                String::from("LargestContentfulPaint/area"),
                90810
            ),
        ]
    );
    assert_eq!(
        bench_points(&traces, f),
        vec![
            (
                String::from("E2E/https://servo.org/LargestContentfulPaint/paint_time"),
                vec![231277380060022]
            ),
            (
                String::from("E2E/https://servo.org/LargestContentfulPaint/area"),
                vec![90810]
            ),
        ]
    );
}

#[test]
fn test_fcp_v5() {
    let traces = vec![dot(
        "FirstContentfulPaint|M|epoch=Epoch(1),paint_time=CrossProcessInstant { value: 271633800350218 },pipeline_id=(1,1)",
    )];
    let f = filter(
        "FirstContentfulPaint",
        "FirstContentfulPaint",
        PointFilterType::Default,
        true,
    );
    let r = f.pointfilter_to_point(&traces, "https://servo.org");
    assert_eq!(
        names_and_values(&r.points),
        vec![(
            String::from("FirstContentfulPaint/paint_time"),
            271633800350218
        )]
    );
    assert_eq!(
        bench_points(&traces, f),
        vec![(
            String::from("E2E/https://servo.org/FirstContentfulPaint/paint_time"),
            vec![271633800350218]
        )]
    );
}

#[test]
fn malformed_paint_message_is_an_error() {
    let traces = vec![dot("LargestContentfulPaint|M|paint_time=soon,area=1")];
    let f = filter(
        "LargestContentfulPaint",
        "LargestContentfulPaint",
        PointFilterType::Largest,
        true,
    );
    let r = f.pointfilter_to_point(&traces, "https://servo.org");
    assert!(r.points.is_empty());
    assert_eq!(r.errors.len(), 1);
    assert!(matches!(r.errors[0], PointError::MalformedTrace { trace: 0 }));
}

#[test]
fn oversized_value_is_an_error() {
    let traces = vec![dot("servo_memory_profiling:resident 99999999999999999999999")];
    let resident = PointFilter::new(String::from("Resident"), String::from("resident"));
    let r = resident.pointfilter_to_point(&traces, "https://servo.org");
    assert!(r.points.is_empty());
    assert!(matches!(r.errors[0], PointError::MalformedTrace { trace: 0 }));
}
