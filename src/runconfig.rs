//! Run configurations and the results accumulated over their runs.
use vstd::prelude::*;

use crate::filter::{Filter, find_notable_differences, interval_spec};
use crate::point_filters::{
    PointError, PointErrorView, PointFilter, PointView, errors_view, extraction, points_view,
};
use crate::text::{push_char, push_text};
use crate::trace::{Duration, Trace, TraceView, traces_view};

verus! {

/// The settings of one run configuration.
#[derive(Debug)]
pub struct RunArgs {
    /// Show all traces.
    pub all_traces: bool,
    /// The number of runs to average over.
    pub tries: usize,
    /// The page to load; memory reports of other urls are ignored.
    pub url: String,
    /// Trace buffer size in KB.
    pub trace_buffer: u64,
    /// Seconds to wait for the page.
    pub sleep: u64,
    /// The application bundle to start.
    pub bundle_name: String,
    /// Read traces from this file instead of a device.
    pub trace_file: Option<String>,
    /// Passed on to the start command.
    pub commands: Option<Vec<String>>,
}

pub fn default_all_traces() -> (r: bool)
    ensures
        !r,
{
    false
}

pub fn default_tries() -> (r: usize)
    ensures
        r == 1,
{
    1
}

pub fn default_url() -> (r: String)
    ensures
        r@ == "https://servo.org"@,
{
    String::from_str("https://servo.org")
}

pub fn default_trace_buffer() -> (r: u64)
    ensures
        r == 524288,
{
    524288
}

pub fn default_sleep() -> (r: u64)
    ensures
        r == 10,
{
    10
}

pub fn default_bundle_name() -> (r: String)
    ensures
        r@ == "org.servo.servo"@,
{
    String::from_str("org.servo.servo")
}

pub fn default_commands() -> (r: Option<Vec<String>>)
    ensures
        r is None,
{
    None
}

impl Default for RunArgs {
    fn default() -> (r: RunArgs)
        ensures
            !r.all_traces,
            r.tries == 1,
            r.url@ == "https://servo.org"@,
            r.trace_buffer == 524288,
            r.sleep == 10,
            r.bundle_name@ == "org.servo.servo"@,
            r.trace_file is None,
            r.commands is None,
    {
        RunArgs {
            all_traces: default_all_traces(),
            tries: default_tries(),
            url: default_url(),
            trace_buffer: default_trace_buffer(),
            sleep: default_sleep(),
            bundle_name: default_bundle_name(),
            trace_file: None,
            commands: default_commands(),
        }
    }
}

/// A run configuration: its settings and its filters.
#[derive(Debug)]
pub struct RunConfig {
    /// Results are keyed for a benchmark document (`E2E/<url>/<name>`).
    pub bencher: bool,
    pub run_args: RunArgs,
    pub filters: Vec<Filter>,
    pub point_filters: Vec<PointFilter>,
}

impl RunConfig {
    pub fn new(bencher: bool, run_args: RunArgs, filters: Vec<Filter>, point_filters: Vec<PointFilter>) -> (r: RunConfig)
        ensures
            r.bencher == bencher,
            r.run_args == run_args,
            r.filters == filters,
            r.point_filters == point_filters,
    {
        RunConfig { bencher, run_args, filters, point_filters }
    }
}

/// The durations of one interval filter, one per successful run.
#[derive(Debug)]
pub struct DurationSeries {
    pub key: String,
    pub values: Vec<Duration>,
}

/// How many runs an interval filter failed in.
#[derive(Debug)]
pub struct ErrorCount {
    pub key: String,
    pub count: u32,
}

/// The values of one point name, one per run that gave one.
#[derive(Debug)]
pub struct PointResult {
    pub no_unit_conversion: bool,
    pub result: Vec<u64>,
}

#[derive(Debug)]
pub struct PointSeries {
    pub key: String,
    pub point: PointResult,
}

/// The results accumulated over the runs of the configurations, each key once, in the
/// order in which keys first came.
#[derive(Debug)]
pub struct RunResults {
    pub filter_results: Vec<DurationSeries>,
    pub errors: Vec<ErrorCount>,
    pub point_results: Vec<PointSeries>,
}

pub struct ResultsView {
    pub filters: Seq<(Seq<char>, Seq<Duration>)>,
    pub errors: Seq<(Seq<char>, u32)>,
    pub points: Seq<(Seq<char>, bool, Seq<u64>)>,
}

impl View for RunResults {
    type V = ResultsView;

    open spec fn view(&self) -> ResultsView {
        ResultsView {
            filters: self.filter_results@.map_values(|e: DurationSeries| (e.key@, e.values@)),
            errors: self.errors@.map_values(|e: ErrorCount| (e.key@, e.count)),
            points: self.point_results@.map_values(
                |e: PointSeries| (e.key@, e.point.no_unit_conversion, e.point.result@),
            ),
        }
    }
}

/// The first position at or after `i` whose key is `k`.
pub open spec fn key_position(keys: Seq<Seq<char>>, k: Seq<char>, i: int) -> Option<int>
    decreases keys.len() - i,
{
    if i < 0 || i >= keys.len() {
        None
    } else if keys[i] == k {
        Some(i)
    } else {
        key_position(keys, k, i + 1)
    }
}

pub open spec fn add_duration(rv: ResultsView, k: Seq<char>, d: Duration) -> ResultsView {
    match key_position(rv.filters.map_values(|e: (Seq<char>, Seq<Duration>)| e.0), k, 0) {
        Some(i) => ResultsView {
            filters: rv.filters.update(i, (k, rv.filters[i].1.push(d))),
            ..rv
        },
        None => ResultsView { filters: rv.filters.push((k, seq![d])), ..rv },
    }
}

pub open spec fn add_error(rv: ResultsView, k: Seq<char>) -> ResultsView {
    match key_position(rv.errors.map_values(|e: (Seq<char>, u32)| e.0), k, 0) {
        Some(i) => ResultsView {
            errors: rv.errors.update(
                i,
                (k, if rv.errors[i].1 == u32::MAX {
                    u32::MAX
                } else {
                    (rv.errors[i].1 + 1) as u32
                }),
            ),
            ..rv
        },
        None => ResultsView { errors: rv.errors.push((k, 1u32)), ..rv },
    }
}

/// A point value joins its name's list; the unit flag of the first value stays.
pub open spec fn add_point(rv: ResultsView, k: Seq<char>, no_unit_conversion: bool, v: u64) -> ResultsView {
    match key_position(rv.points.map_values(|e: (Seq<char>, bool, Seq<u64>)| e.0), k, 0) {
        Some(i) => ResultsView {
            points: rv.points.update(i, (k, rv.points[i].1, rv.points[i].2.push(v))),
            ..rv
        },
        None => ResultsView { points: rv.points.push((k, no_unit_conversion, seq![v])), ..rv },
    }
}

impl RunResults {
    pub fn new() -> (r: RunResults)
        ensures
            r@.filters.len() == 0,
            r@.errors.len() == 0,
            r@.points.len() == 0,
    {
        RunResults { filter_results: Vec::new(), errors: Vec::new(), point_results: Vec::new() }
    }

    /// Adds one successful duration under `key`.
    pub fn record_duration(&mut self, key: String, d: Duration)
        ensures
            final(self)@ == add_duration(old(self)@, key@, d),
    {
        let ghost keys = old(self)@.filters.map_values(|e: (Seq<char>, Seq<Duration>)| e.0);
        let mut i: usize = 0;
        while i < self.filter_results.len()
            invariant
                0 <= i <= self.filter_results@.len(),
                self@ == old(self)@,
                keys == self@.filters.map_values(|e: (Seq<char>, Seq<Duration>)| e.0),
                key_position(keys, key@, 0) == key_position(keys, key@, i as int),
            decreases self.filter_results@.len() - i,
        {
            assert(keys[i as int] == self.filter_results@[i as int].key@);
            if self.filter_results[i].key == key {
                let ghost old_view = self@;
                let mut values = Vec::new();
                std::mem::swap(&mut values, &mut self.filter_results[i].values);
                values.push(d);
                self.filter_results.set(i, DurationSeries { key, values });
                assert(self@.filters =~= old_view.filters.update(i as int, (key@, old_view.filters[i as int].1.push(d))));
                return;
            }
            i = i + 1;
        }
        let ghost old_view = self@;
        let mut values = Vec::new();
        values.push(d);
        self.filter_results.push(DurationSeries { key, values });
        assert(values@ =~= seq![d]);
        assert(self@.filters =~= old_view.filters.push((key@, seq![d])));
    }

    /// Counts one more failed run under `key`.
    pub fn record_error(&mut self, key: String)
        ensures
            final(self)@ == add_error(old(self)@, key@),
    {
        let ghost keys = old(self)@.errors.map_values(|e: (Seq<char>, u32)| e.0);
        let mut i: usize = 0;
        while i < self.errors.len()
            invariant
                0 <= i <= self.errors@.len(),
                self@ == old(self)@,
                keys == self@.errors.map_values(|e: (Seq<char>, u32)| e.0),
                key_position(keys, key@, 0) == key_position(keys, key@, i as int),
            decreases self.errors@.len() - i,
        {
            assert(keys[i as int] == self.errors@[i as int].key@);
            if self.errors[i].key == key {
                let ghost old_view = self@;
                let count = self.errors[i].count.saturating_add(1);
                self.errors.set(i, ErrorCount { key, count });
                assert(self@.errors =~= old_view.errors.update(
                    i as int,
                    (key@, if old_view.errors[i as int].1 == u32::MAX {
                        u32::MAX
                    } else {
                        (old_view.errors[i as int].1 + 1) as u32
                    }),
                ));
                return;
            }
            i = i + 1;
        }
        let ghost old_view = self@;
        self.errors.push(ErrorCount { key, count: 1 });
        assert(self@.errors =~= old_view.errors.push((key@, 1u32)));
    }

    /// Adds one point value under `key`; the unit flag of the first value stays.
    pub fn record_point(&mut self, key: String, no_unit_conversion: bool, v: u64)
        ensures
            final(self)@ == add_point(old(self)@, key@, no_unit_conversion, v),
    {
        let ghost keys = old(self)@.points.map_values(|e: (Seq<char>, bool, Seq<u64>)| e.0);
        let mut i: usize = 0;
        while i < self.point_results.len()
            invariant
                0 <= i <= self.point_results@.len(),
                self@ == old(self)@,
                keys == self@.points.map_values(|e: (Seq<char>, bool, Seq<u64>)| e.0),
                key_position(keys, key@, 0) == key_position(keys, key@, i as int),
            decreases self.point_results@.len() - i,
        {
            assert(keys[i as int] == self.point_results@[i as int].key@);
            if self.point_results[i].key == key {
                let ghost old_view = self@;
                let flag = self.point_results[i].point.no_unit_conversion;
                let mut values = Vec::new();
                std::mem::swap(&mut values, &mut self.point_results[i].point.result);
                values.push(v);
                self.point_results.set(
                    i,
                    PointSeries { key, point: PointResult { no_unit_conversion: flag, result: values } },
                );
                assert(self@.points =~= old_view.points.update(
                    i as int,
                    (key@, old_view.points[i as int].1, old_view.points[i as int].2.push(v)),
                ));
                return;
            }
            i = i + 1;
        }
        let ghost old_view = self@;
        let mut values = Vec::new();
        values.push(v);
        self.point_results.push(
            PointSeries { key, point: PointResult { no_unit_conversion, result: values } },
        );
        assert(values@ =~= seq![v]);
        assert(self@.points =~= old_view.points.push((key@, no_unit_conversion, seq![v])));
    }
}

/// The key a measurement is stored under: `E2E/<url>/<name>` for a benchmark document,
/// else the name.
pub open spec fn result_key(bencher: bool, url: Seq<char>, name: Seq<char>) -> Seq<char> {
    if bencher {
        "E2E/"@ + url + seq!['/'] + name
    } else {
        name
    }
}

pub fn result_key_exec(bencher: bool, url: &str, name: &str) -> (r: String)
    ensures
        r@ == result_key(bencher, url@, name@),
{
    let mut r = String::new();
    if bencher {
        push_text(&mut r, "E2E/");
        push_text(&mut r, url);
        push_char(&mut r, '/');
    }
    push_text(&mut r, name);
    assert(r@ =~= result_key(bencher, url@, name@));
    r
}

/// The outcome of each interval filter on a capture, by name.
pub open spec fn filter_outcomes(filters: Seq<Filter>, ts: Seq<TraceView>) -> Seq<(Seq<char>, Result<int, (nat, nat)>)> {
    filters.map_values(|f: Filter| (f.name@, interval_spec(f.first@, f.last@, ts)))
}

/// The results after the outcomes of one run's interval filters are added in order.
pub open spec fn apply_outcomes(rv: ResultsView, bencher: bool, url: Seq<char>, outs: Seq<(Seq<char>, Result<int, (nat, nat)>)>) -> ResultsView
    decreases outs.len(),
{
    if outs.len() == 0 {
        rv
    } else {
        let prev = apply_outcomes(rv, bencher, url, outs.drop_last());
        let (name, res) = outs.last();
        match res {
            Ok(d) => add_duration(prev, result_key(bencher, url, name), Duration { micros: d as i128 }),
            Err(_) => add_error(prev, result_key(bencher, url, name)),
        }
    }
}

/// The points of every point filter on a capture, filter after filter.
pub open spec fn all_points(pfs: Seq<PointFilter>, url: Seq<char>, ts: Seq<TraceView>) -> Seq<PointView>
    decreases pfs.len(),
{
    if pfs.len() == 0 {
        Seq::empty()
    } else {
        all_points(pfs.drop_last(), url, ts) + extraction(pfs.last()@, url, ts).0
    }
}

/// The errors of every point filter on a capture, each with its filter's name.
pub open spec fn all_point_errors(pfs: Seq<PointFilter>, url: Seq<char>, ts: Seq<TraceView>) -> Seq<(Seq<char>, PointErrorView)>
    decreases pfs.len(),
{
    if pfs.len() == 0 {
        Seq::empty()
    } else {
        all_point_errors(pfs.drop_last(), url, ts) + extraction(pfs.last()@, url, ts).1.map_values(
            |e: PointErrorView| (pfs.last().name@, e),
        )
    }
}

/// The results after one run's points are added in order.
pub open spec fn apply_points(rv: ResultsView, bencher: bool, url: Seq<char>, ps: Seq<PointView>) -> ResultsView
    decreases ps.len(),
{
    if ps.len() == 0 {
        rv
    } else {
        let p = ps.last();
        add_point(
            apply_points(rv, bencher, url, ps.drop_last()),
            result_key(bencher, url, p.name),
            p.no_unit_conversion,
            p.point_type.value(),
        )
    }
}

/// A point filter's error, with the filter's name.
#[derive(Debug)]
pub struct NamedPointError {
    pub filter: String,
    pub error: PointError,
}

/// Adds the outcome of each interval filter on one run's traces: a duration where the
/// filter picked one start and one end, else one more failure.
pub fn run_runconfig_filters(run_config: &RunConfig, traces: &Vec<Trace>, results: &mut RunResults)
    ensures
        final(results)@ == apply_outcomes(
            old(results)@,
            run_config.bencher,
            run_config.run_args.url@,
            filter_outcomes(run_config.filters@, traces_view(traces@)),
        ),
{
    let ghost ts = traces_view(traces@);
    let ghost outs = filter_outcomes(run_config.filters@, ts);
    let differences = find_notable_differences(traces, &run_config.filters);
    let mut i: usize = 0;
    while i < differences.len()
        invariant
            0 <= i <= differences@.len(),
            differences@.len() == run_config.filters@.len(),
            outs == filter_outcomes(run_config.filters@, ts),
            ts == traces_view(traces@),
            forall|k: int|
                0 <= k < differences@.len() ==> {
                    &&& (#[trigger] differences@[k]).name@ == run_config.filters@[k].name@
                    &&& match differences@[k].result {
                        Ok(d) => interval_spec(run_config.filters@[k].first@, run_config.filters@[k].last@, ts) == Ok::<int, (nat, nat)>(d.micros as int),
                        Err(e) => interval_spec(run_config.filters@[k].first@, run_config.filters@[k].last@, ts) == Err::<int, (nat, nat)>((e.first as nat, e.last as nat)),
                    }
                },
            results@ == apply_outcomes(old(results)@, run_config.bencher, run_config.run_args.url@, outs.take(i as int)),
        decreases differences@.len() - i,
    {
        let o = &differences[i];
        assert(outs.take(i + 1).drop_last() =~= outs.take(i as int));
        assert(outs.take(i + 1).last() == outs[i as int]);
        assert(outs[i as int].0 == o.name@);
        let key = result_key_exec(run_config.bencher, run_config.run_args.url.as_str(), o.name.as_str());
        match o.result {
            Ok(d) => {
                results.record_duration(key, d);
            },
            Err(_) => {
                results.record_error(key);
            },
        }
        i = i + 1;
    }
    assert(outs.take(i as int) =~= outs);
}

/// Adds the points of every point filter on one run's traces, and returns the errors the
/// point filters met.
pub fn run_runconfig_points(run_config: &RunConfig, traces: &Vec<Trace>, results: &mut RunResults) -> (r: Vec<NamedPointError>)
    ensures
        final(results)@ == apply_points(
            old(results)@,
            run_config.bencher,
            run_config.run_args.url@,
            all_points(run_config.point_filters@, run_config.run_args.url@, traces_view(traces@)),
        ),
        r@.map_values(|e: NamedPointError| (e.filter@, e.error@)) == all_point_errors(
            run_config.point_filters@,
            run_config.run_args.url@,
            traces_view(traces@),
        ),
{
    let ghost ts = traces_view(traces@);
    let ghost url = run_config.run_args.url@;
    let ghost pfs = run_config.point_filters@;
    let mut errors: Vec<NamedPointError> = Vec::new();
    let mut j: usize = 0;
    while j < run_config.point_filters.len()
        invariant
            0 <= j <= pfs.len(),
            pfs == run_config.point_filters@,
            url == run_config.run_args.url@,
            ts == traces_view(traces@),
            results@ == apply_points(old(results)@, run_config.bencher, url, all_points(pfs.take(j as int), url, ts)),
            errors@.map_values(|e: NamedPointError| (e.filter@, e.error@)) == all_point_errors(pfs.take(j as int), url, ts),
        decreases pfs.len() - j,
    {
        let pf = &run_config.point_filters[j];
        assert(pfs.take(j + 1).drop_last() =~= pfs.take(j as int));
        assert(pfs.take(j + 1).last() == pfs[j as int]);
        let ex = pf.pointfilter_to_point(traces, run_config.run_args.url.as_str());
        let ghost before = all_points(pfs.take(j as int), url, ts);
        let ghost eps = points_view(ex.points@);
        let mut k: usize = 0;
        while k < ex.points.len()
            invariant
                0 <= k <= ex.points@.len(),
                eps == points_view(ex.points@),
                url == run_config.run_args.url@,
                results@ == apply_points(old(results)@, run_config.bencher, url, before + eps.take(k as int)),
            decreases ex.points@.len() - k,
        {
            let p = &ex.points[k];
            assert((before + eps.take(k + 1)).drop_last() =~= before + eps.take(k as int));
            assert((before + eps.take(k + 1)).last() == p@);
            let key = result_key_exec(run_config.bencher, run_config.run_args.url.as_str(), p.name.as_str());
            let v = match p.point_type.numeric_value() {
                Some(v) => v,
                None => 0,
            };
            results.record_point(key, p.no_unit_conversion, v);
            k = k + 1;
        }
        assert(eps.take(k as int) =~= eps);
        assert(all_points(pfs.take(j + 1), url, ts) == before + eps);
        let ghost old_errors = errors@;
        let mut m: usize = 0;
        let pe = ex.errors;
        let ghost evs = errors_view(pe@);
        while m < pe.len()
            invariant
                0 <= m <= pe@.len(),
                evs == errors_view(pe@),
                url == run_config.run_args.url@,
                errors@.map_values(|e: NamedPointError| (e.filter@, e.error@)) == old_errors.map_values(|e: NamedPointError| (e.filter@, e.error@)) + evs.take(m as int).map_values(|e: PointErrorView| (pf.name@, e)),
            decreases pe@.len() - m,
        {
            let ghost prev = errors@;
            let e = copy_error(&pe[m]);
            errors.push(NamedPointError { filter: pf.name.clone(), error: e });
            m = m + 1;
            assert(evs.take(m as int).map_values(|e: PointErrorView| (pf.name@, e)) =~= evs.take(m - 1).map_values(|e: PointErrorView| (pf.name@, e)).push((pf.name@, evs[m - 1])));
            assert(errors@.map_values(|e: NamedPointError| (e.filter@, e.error@)) =~= prev.map_values(|e: NamedPointError| (e.filter@, e.error@)).push((pf.name@, evs[m - 1])));
        }
        assert(evs.take(m as int) =~= evs);
        j = j + 1;
    }
    assert(pfs.take(j as int) =~= pfs);
    errors
}

/// A copy of a point error.
fn copy_error(e: &PointError) -> (r: PointError)
    ensures
        r@ == e@,
{
    let r = match e {
        PointError::TooManyTracesMatching { kind, traces } => {
            let mut t: Vec<usize> = Vec::new();
            let mut i: usize = 0;
            while i < traces.len()
                invariant
                    0 <= i <= traces@.len(),
                    t@ == traces@.take(i as int),
                decreases traces@.len() - i,
            {
                t.push(traces[i]);
                i = i + 1;
                assert(t@ =~= traces@.take(i as int));
            }
            assert(traces@.take(i as int) =~= traces@);
            PointError::TooManyTracesMatching { kind: *kind, traces: t }
        },
        PointError::MalformedTrace { trace } => PointError::MalformedTrace { trace: *trace },
    };
    r
}

} // verus!
