//! Interval filters: the time between a start trace and an end trace.
use vstd::prelude::*;

use crate::text::{contains, seq_contains};
use crate::trace::{
    Duration, Trace, TraceMarker, TraceView, difference_of_traces, difference_spec, traces_view,
};

verus! {

/// One test on a trace.
#[derive(Debug)]
pub enum Clause {
    /// The message contains this text.
    FunctionContains(String),
    /// The short code is exactly this text.
    ShorthandEquals(String),
    /// The marker is this one.
    MarkerIs(TraceMarker),
}

pub enum ClauseView {
    FunctionContains(Seq<char>),
    ShorthandEquals(Seq<char>),
    MarkerIs(TraceMarker),
}

impl View for Clause {
    type V = ClauseView;

    open spec fn view(&self) -> ClauseView {
        match self {
            Clause::FunctionContains(s) => ClauseView::FunctionContains(s@),
            Clause::ShorthandEquals(s) => ClauseView::ShorthandEquals(s@),
            Clause::MarkerIs(m) => ClauseView::MarkerIs(*m),
        }
    }
}

pub open spec fn clause_holds(c: ClauseView, t: TraceView) -> bool {
    match c {
        ClauseView::FunctionContains(s) => seq_contains(t.function, s),
        ClauseView::ShorthandEquals(s) => t.shorthand == s,
        ClauseView::MarkerIs(m) => t.trace_marker == m,
    }
}

/// A test on a trace: all of its clauses hold.
#[derive(Debug)]
pub struct TracePredicate {
    pub clauses: Vec<Clause>,
}

impl View for TracePredicate {
    type V = Seq<ClauseView>;

    open spec fn view(&self) -> Seq<ClauseView> {
        self.clauses@.map_values(|c: Clause| c@)
    }
}

pub open spec fn holds(p: Seq<ClauseView>, t: TraceView) -> bool {
    forall|i: int| 0 <= i < p.len() ==> clause_holds(#[trigger] p[i], t)
}

impl Clause {
    pub fn test(&self, t: &Trace) -> (r: bool)
        ensures
            r == clause_holds(self@, t@),
    {
        match self {
            Clause::FunctionContains(s) => contains(t.function.as_str(), s.as_str()),
            Clause::ShorthandEquals(s) => t.shorthand == *s,
            Clause::MarkerIs(m) => t.trace_marker == *m,
        }
    }
}

impl TracePredicate {
    /// The predicate that the message contains `s`.
    pub fn function_contains(s: &str) -> (r: TracePredicate)
        ensures
            r@ == seq![ClauseView::FunctionContains(s@)],
    {
        let mut clauses: Vec<Clause> = Vec::new();
        clauses.push(Clause::FunctionContains(String::from_str(s)));
        let r = TracePredicate { clauses };
        assert(r@ =~= seq![ClauseView::FunctionContains(s@)]);
        r
    }

    /// Whether every clause holds of the trace.
    pub fn test(&self, t: &Trace) -> (r: bool)
        ensures
            r == holds(self@, t@),
    {
        let mut i: usize = 0;
        while i < self.clauses.len()
            invariant
                0 <= i <= self.clauses@.len(),
                forall|k: int| 0 <= k < i ==> clause_holds(#[trigger] self@[k], t@),
            decreases self.clauses@.len() - i,
        {
            if !self.clauses[i].test(t) {
                assert(!clause_holds(self@[i as int], t@));
                return false;
            }
            i = i + 1;
        }
        true
    }
}

/// How many of the traces the predicate holds of.
pub open spec fn count_where(ts: Seq<TraceView>, p: Seq<ClauseView>) -> nat
    decreases ts.len(),
{
    if ts.len() == 0 {
        0
    } else {
        count_where(ts.drop_last(), p) + if holds(p, ts.last()) {
            1nat
        } else {
            0nat
        }
    }
}

/// The index of the last trace the predicate holds of, or -1.
pub open spec fn last_where(ts: Seq<TraceView>, p: Seq<ClauseView>) -> int
    decreases ts.len(),
{
    if ts.len() == 0 {
        -1
    } else if holds(p, ts.last()) {
        ts.len() - 1
    } else {
        last_where(ts.drop_last(), p)
    }
}

/// A named pair of predicates: the time from the trace matching the first to the trace
/// matching the last.
#[derive(Debug)]
pub struct Filter {
    /// The name of the measurement.
    pub name: String,
    /// Picks the trace at the start of the interval.
    pub first: TracePredicate,
    /// Picks the trace at the end of the interval.
    pub last: TracePredicate,
}

/// The filter's predicates did not pick exactly one trace each.
#[derive(Clone, Copy, Debug, PartialEq, Eq, Structural)]
pub struct FilterError {
    /// How many traces the start predicate picked.
    pub first: usize,
    /// How many traces the end predicate picked.
    pub last: usize,
}

/// What a filter gives on a capture: the interval, or the counts that ruled it out.
pub open spec fn interval_spec(first: Seq<ClauseView>, last: Seq<ClauseView>, ts: Seq<TraceView>) -> Result<int, (nat, nat)> {
    let nf = count_where(ts, first);
    let nl = count_where(ts, last);
    if nf == 1 && nl == 1 {
        Ok(difference_spec(ts[last_where(ts, last)], ts[last_where(ts, first)]))
    } else {
        Err((nf, nl))
    }
}

proof fn lemma_last_where(ts: Seq<TraceView>, p: Seq<ClauseView>)
    ensures
        count_where(ts, p) <= ts.len(),
        count_where(ts, p) > 0 ==> 0 <= last_where(ts, p) < ts.len() && holds(p, ts[last_where(ts, p)]),
        count_where(ts, p) == 0 ==> last_where(ts, p) == -1,
    decreases ts.len(),
{
    if ts.len() > 0 {
        lemma_last_where(ts.drop_last(), p);
    }
}

impl Filter {
    /// A filter whose start and end traces are those whose message contains the given text.
    pub fn from_description(name: &str, start_fn_partial: &str, end_fn_partial: &str) -> (r: Filter)
        ensures
            r.name@ == name@,
            r.first@ == seq![ClauseView::FunctionContains(start_fn_partial@)],
            r.last@ == seq![ClauseView::FunctionContains(end_fn_partial@)],
    {
        Filter {
            name: String::from_str(name),
            first: TracePredicate::function_contains(start_fn_partial),
            last: TracePredicate::function_contains(end_fn_partial),
        }
    }

    /// The interval that the filter picks from the traces, or the counts that rule it out.
    pub fn filter_to_duration(&self, v: &Vec<Trace>) -> (r: Result<Duration, FilterError>)
        ensures
            match r {
                Ok(d) => interval_spec(self.first@, self.last@, traces_view(v@)) == Ok::<int, (nat, nat)>(d.micros as int),
                Err(e) => interval_spec(self.first@, self.last@, traces_view(v@)) == Err::<int, (nat, nat)>((e.first as nat, e.last as nat)),
            },
    {
        let ghost ts = traces_view(v@);
        let mut nf: usize = 0;
        let mut nl: usize = 0;
        let mut lf: usize = 0;
        let mut ll: usize = 0;
        let mut i: usize = 0;
        while i < v.len()
            invariant
                0 <= i <= v@.len(),
                ts == traces_view(v@),
                nf as nat == count_where(ts.take(i as int), self.first@),
                nl as nat == count_where(ts.take(i as int), self.last@),
                nf > 0 ==> lf as int == last_where(ts.take(i as int), self.first@),
                nl > 0 ==> ll as int == last_where(ts.take(i as int), self.last@),
                nf <= i,
                nl <= i,
            decreases v@.len() - i,
        {
            let ghost pre = ts.take(i as int);
            assert(ts.take(i + 1).drop_last() =~= pre);
            assert(ts.take(i + 1).last() == v@[i as int]@);
            proof {
                lemma_last_where(pre, self.first@);
                lemma_last_where(pre, self.last@);
            }
            if self.first.test(&v[i]) {
                nf = nf + 1;
                lf = i;
            }
            if self.last.test(&v[i]) {
                nl = nl + 1;
                ll = i;
            }
            i = i + 1;
        }
        assert(ts.take(i as int) =~= ts);
        proof {
            lemma_last_where(ts, self.first@);
            lemma_last_where(ts, self.last@);
        }
        if nf != 1 || nl != 1 {
            Err(FilterError { first: nf, last: nl })
        } else {
            assert(ts[lf as int] == v@[lf as int]@);
            assert(ts[ll as int] == v@[ll as int]@);
            Ok(difference_of_traces(&v[ll], &v[lf]))
        }
    }
}

/// The outcome of one filter on one capture.
#[derive(Debug)]
pub struct FilterOutcome {
    pub name: String,
    pub result: Result<Duration, FilterError>,
}

/// Runs every filter over the traces, in the order of the filters.
pub fn find_notable_differences(v: &Vec<Trace>, filters: &Vec<Filter>) -> (r: Vec<FilterOutcome>)
    ensures
        r@.len() == filters@.len(),
        forall|i: int|
            0 <= i < r@.len() ==> {
                &&& (#[trigger] r@[i]).name@ == filters@[i].name@
                &&& match r@[i].result {
                    Ok(d) => interval_spec(filters@[i].first@, filters@[i].last@, traces_view(v@)) == Ok::<int, (nat, nat)>(d.micros as int),
                    Err(e) => interval_spec(filters@[i].first@, filters@[i].last@, traces_view(v@)) == Err::<int, (nat, nat)>((e.first as nat, e.last as nat)),
                }
            },
{
    let mut r: Vec<FilterOutcome> = Vec::new();
    let mut i: usize = 0;
    while i < filters.len()
        invariant
            0 <= i <= filters@.len(),
            r@.len() == i,
            forall|k: int|
                0 <= k < i ==> {
                    &&& (#[trigger] r@[k]).name@ == filters@[k].name@
                    &&& match r@[k].result {
                        Ok(d) => interval_spec(filters@[k].first@, filters@[k].last@, traces_view(v@)) == Ok::<int, (nat, nat)>(d.micros as int),
                        Err(e) => interval_spec(filters@[k].first@, filters@[k].last@, traces_view(v@)) == Err::<int, (nat, nat)>((e.first as nat, e.last as nat)),
                    }
                },
        decreases filters@.len() - i,
    {
        let result = filters[i].filter_to_duration(v);
        r.push(FilterOutcome { name: filters[i].name.clone(), result });
        i = i + 1;
    }
    r
}

proof fn lemma_only_match(ts: Seq<TraceView>, p: Seq<ClauseView>, i: int)
    requires
        0 <= i < ts.len(),
        holds(p, ts[i]),
        count_where(ts, p) == 1,
    ensures
        last_where(ts, p) == i,
    decreases ts.len(),
{
    let t = ts.drop_last();
    if i < ts.len() - 1 {
        assert(t[i] == ts[i]);
        lemma_count_positive(t, p, i);
        assert(!holds(p, ts.last()));
        lemma_only_match(t, p, i);
    } else {
        lemma_last_where(t, p);
    }
}

proof fn lemma_count_positive(ts: Seq<TraceView>, p: Seq<ClauseView>, i: int)
    requires
        0 <= i < ts.len(),
        holds(p, ts[i]),
    ensures
        count_where(ts, p) >= 1,
    decreases ts.len(),
{
    if i < ts.len() - 1 {
        assert(ts.drop_last()[i] == ts[i]);
        lemma_count_positive(ts.drop_last(), p, i);
    }
}

/// Where the start predicate picks exactly the trace at `i` and the end predicate exactly
/// the trace at `j`, the interval is the time from the first to the second, negative when
/// the end comes first.
pub proof fn lemma_unique_interval(
    first: Seq<ClauseView>,
    last: Seq<ClauseView>,
    ts: Seq<TraceView>,
    i: int,
    j: int,
)
    requires
        0 <= i < ts.len(),
        0 <= j < ts.len(),
        holds(first, ts[i]),
        holds(last, ts[j]),
        count_where(ts, first) == 1,
        count_where(ts, last) == 1,
    ensures
        interval_spec(first, last, ts) == Ok::<int, (nat, nat)>(difference_spec(ts[j], ts[i])),
{
    lemma_only_match(ts, first, i);
    lemma_only_match(ts, last, j);
}

/// Where either predicate picks no trace or more than one, the interval is an error that
/// carries both counts.
pub proof fn lemma_ambiguous_interval(first: Seq<ClauseView>, last: Seq<ClauseView>, ts: Seq<TraceView>)
    requires
        count_where(ts, first) != 1 || count_where(ts, last) != 1,
    ensures
        interval_spec(first, last, ts) == Err::<int, (nat, nat)>(
            (count_where(ts, first), count_where(ts, last)),
        ),
{
}

} // verus!
